use vstd::prelude::*;
use vstd::string::StringExecFns;
use crate::ast::CompUnit;
use crate::symbol::{GenericParameter, Symbol, SymbolKind};
use crate::symbol_table::{SymbolId, SymbolTable};
use crate::token::{name_view, StrId, StrTable};

verus! {

/// The parse result holder the grammar actions fill in.
#[derive(Debug)]
pub struct VerylaGrammar {
    pub veryla: Option<CompUnit>,
}

impl VerylaGrammar {
    pub fn new() -> (g: VerylaGrammar)
        ensures
            g.veryla is None,
    {
        VerylaGrammar { veryla: None }
    }

    /// The semantic action for the root nonterminal: keeps the parsed
    /// unit.
    pub fn veryla(&mut self, arg: CompUnit)
        ensures
            final(self).veryla is Some,
    {
        self.veryla = Some(arg);
    }
}

/// One public top-level item of the documentation index.
#[derive(Debug)]
pub struct TopLevelItem {
    pub name: StrId,
    pub html_name: String,
    pub symbol_id: SymbolId,
}

/// The display label of a generic item: its name alone without
/// parameters, else the name with the escaped parameter list.
pub open spec fn fmt_label(name: Seq<char>, params: Seq<StrId>, strs: StrTable) -> Seq<char> {
    if params.len() == 0 {
        name
    } else {
        name + "::&lt;"@ + join_params(params, strs) + "&gt;"@
    }
}

/// The comma-joined parameter names.
pub open spec fn join_params(params: Seq<StrId>, strs: StrTable) -> Seq<char>
    decreases params.len(),
{
    if params.len() == 0 {
        Seq::empty()
    } else if params.len() == 1 {
        name_view(strs, params[0])
    } else {
        join_params(params.drop_last(), strs) + ", "@ + name_view(strs, params.last())
    }
}

/// Builds the display label of a generic item.
#[verifier::loop_isolation(false)]
pub fn fmt_generic_parameters(name: &str, params: &Vec<GenericParameter>, strs: &StrTable) -> (s:
    String)
    ensures
        s@ == fmt_label(
            name@,
            params@.map_values(|g: GenericParameter| g.name),
            *strs,
        ),
{
    let ghost ids = params@.map_values(|g: GenericParameter| g.name);
    if params.len() == 0 {
        return String::from_str(name);
    }
    let mut s = String::from_str(name);
    s.append("::&lt;");
    let n = params.len();
    for i in 0..n
        invariant
            n >= 1,
            s@ == name@ + "::&lt;"@ + join_params(ids.take(i as int), *strs),
    {
        if i > 0 {
            s.append(", ");
        }
        s.append(strs.get_name(params[i].name));
        proof {
            assert(ids.take(i + 1 as int).drop_last() =~= ids.take(i as int));
            if i == 0 {
                assert(join_params(ids.take(1), *strs) =~= name_view(*strs, ids[0]));
            }
            assert(s@ =~= name@ + "::&lt;"@ + join_params(ids.take(i + 1 as int), *strs));
        }
    }
    s.append("&gt;");
    proof {
        assert(ids.take(n as int) =~= ids);
    }
    s
}

/// Whether a symbol belongs on the documentation index: public and
/// declared at the top level.
pub open spec fn doc_visible(s: Symbol) -> bool {
    s.public && s.namespace@.len() == 0
}

/// The indices of the visible entity symbols among the first `n`.
pub open spec fn entity_indices_upto(syms: Seq<Symbol>, n: int) -> Seq<int>
    decreases n,
{
    if n <= 0 || n > syms.len() {
        Seq::empty()
    } else if doc_visible(syms[n - 1]) && syms[n - 1].kind is Entity {
        entity_indices_upto(syms, n - 1).push(n - 1)
    } else {
        entity_indices_upto(syms, n - 1)
    }
}

/// One further section of the documentation index.
#[derive(Clone, Copy, Debug, PartialEq, Eq, Structural)]
pub enum DocSection {
    Proto,
    Interface,
    Package,
}

/// Whether a symbol kind belongs to a section.
pub open spec fn section_selects(k: SymbolKind, section: DocSection) -> bool {
    match section {
        DocSection::Proto => k is ProtoEntity,
        DocSection::Interface => k is Interface,
        DocSection::Package => k is Package,
    }
}

/// The indices of the visible symbols of a section among the first
/// `n`.
pub open spec fn section_indices_upto(syms: Seq<Symbol>, section: DocSection, n: int) -> Seq<int>
    decreases n,
{
    if n <= 0 || n > syms.len() {
        Seq::empty()
    } else if doc_visible(syms[n - 1]) && section_selects(syms[n - 1].kind, section) {
        section_indices_upto(syms, section, n - 1).push(n - 1)
    } else {
        section_indices_upto(syms, section, n - 1)
    }
}

/// Lexicographic order on names, from position `i` on: the shorter
/// name precedes its extensions, and the first differing character
/// decides.
pub open spec fn str_le_at(a: Seq<char>, b: Seq<char>, i: int) -> bool
    decreases a.len() - i,
{
    if i < 0 || i >= a.len() {
        true
    } else if i >= b.len() {
        false
    } else if a[i] != b[i] {
        a[i] < b[i]
    } else {
        str_le_at(a, b, i + 1)
    }
}

/// Lexicographic order on names.
pub open spec fn str_le(a: Seq<char>, b: Seq<char>) -> bool {
    str_le_at(a, b, 0)
}

/// Lexicographic order is total.
proof fn lemma_str_le_total(a: Seq<char>, b: Seq<char>, i: int)
    ensures
        str_le_at(a, b, i) || str_le_at(b, a, i),
    decreases a.len() - i,
{
    if 0 <= i && i < a.len() && i < b.len() && a[i] == b[i] {
        lemma_str_le_total(a, b, i + 1);
    }
}

/// Lexicographic order is transitive.
proof fn lemma_str_le_trans(a: Seq<char>, b: Seq<char>, c: Seq<char>, i: int)
    requires
        0 <= i,
        str_le_at(a, b, i),
        str_le_at(b, c, i),
    ensures
        str_le_at(a, c, i),
    decreases a.len() - i,
{
    if i < a.len() {
        if a[i] == b[i] && b[i] == c[i] {
            lemma_str_le_trans(a, b, c, i + 1);
        }
    }
}

/// A flag list fully counted is fully set.
proof fn lemma_all_set(used: Seq<bool>, n: int)
    requires
        n == used.len(),
        count_set(used, n) == n,
    ensures
        forall|j: int| 0 <= j < n ==> used[j],
    decreases n,
{
    if n > 0 {
        lemma_count_bound(used, n - 1);
        lemma_count_set_same(used.drop_last(), used, n - 1);
        lemma_all_set(used.drop_last(), n - 1);
        assert forall|j: int| 0 <= j < n implies used[j] by {
            if j < n - 1 {
                assert(used.drop_last()[j]);
            }
        }
    }
}

/// The set count never exceeds the length counted.
proof fn lemma_count_bound(used: Seq<bool>, n: int)
    requires
        0 <= n,
    ensures
        count_set(used, n) <= n,
        0 <= count_set(used, n),
    decreases n,
{
    if n > 0 {
        lemma_count_bound(used, n - 1);
    }
}

/// Exec comparison matching `str_le`.
#[verifier::loop_isolation(false)]
fn str_le_exec(a: &str, b: &str) -> (r: bool)
    ensures
        r == str_le(a@, b@),
{
    let n = a.unicode_len();
    let m = b.unicode_len();
    for i in 0..n
        invariant
            n == a@.len(),
            m == b@.len(),
            str_le(a@, b@) == str_le_at(a@, b@, i as int),
    {
        if i >= m {
            return false;
        }
        let ca = a.get_char(i);
        let cb = b.get_char(i);
        if ca != cb {
            return ca < cb;
        }
    }
    true
}

/// A copy of one index item, equal to the original.
fn clone_item(it: &TopLevelItem) -> (r: TopLevelItem)
    ensures
        r == *it,
{
    TopLevelItem { name: it.name, html_name: it.html_name.clone(), symbol_id: it.symbol_id }
}

/// How many entries of a flag list are set.
pub open spec fn count_set(used: Seq<bool>, n: int) -> int
    decreases n,
{
    if n <= 0 || n > used.len() {
        0
    } else {
        count_set(used, n - 1) + (if used[n - 1] {
            1int
        } else {
            0int
        })
    }
}

/// A flag list with fewer set entries than entries has a clear one.
proof fn lemma_unset_exists(used: Seq<bool>, n: int)
    requires
        n == used.len(),
        count_set(used, n) < n,
    ensures
        exists|j: int| 0 <= j < used.len() && !used[j],
    decreases n,
{
    if n > 0 {
        if !used[n - 1] {
        } else {
            lemma_count_set_same(used.drop_last(), used, n - 1);
            lemma_unset_exists(used.drop_last(), n - 1);
            let j = choose|j: int| 0 <= j < used.drop_last().len() && !used.drop_last()[j];
            assert(!used[j]);
        }
    }
}

/// Setting one clear flag raises the count by one.
proof fn lemma_count_set_update(used: Seq<bool>, n: int, b: int)
    requires
        0 <= b < n <= used.len(),
        !used[b],
    ensures
        count_set(used.update(b, true), n) == count_set(used, n) + 1,
    decreases n,
{
    if n > 0 {
        if b == n - 1 {
            lemma_count_set_same(used.update(b, true), used, n - 1);
        } else {
            lemma_count_set_update(used, n - 1, b);
            assert(used.update(b, true)[n - 1] == used[n - 1]);
        }
    }
}

/// Equal prefixes count the same.
proof fn lemma_count_set_same(a: Seq<bool>, b: Seq<bool>, n: int)
    requires
        forall|j: int| 0 <= j < n ==> a[j] == b[j],
        n <= a.len(),
        n <= b.len(),
    ensures
        count_set(a, n) == count_set(b, n),
    decreases n,
{
    if n > 0 {
        lemma_count_set_same(a, b, n - 1);
    }
}

/// Sorts an index section by name: the result holds exactly the given
/// items, in lexicographic name order.
#[verifier::loop_isolation(false)]
#[verifier::rlimit(100)]
#[verifier::spinoff_prover]
pub fn sort_items_by_name(items: &Vec<TopLevelItem>, strs: &StrTable) -> (out: Vec<TopLevelItem>)
    ensures
        out@.len() == items@.len(),
        forall|i: int, j: int|
            0 <= i < j < out@.len() ==> str_le(
                crate::token::name_view(*strs, (#[trigger] out@[i]).name),
                crate::token::name_view(*strs, (#[trigger] out@[j]).name),
            ),
        forall|i: int|
            #![trigger out@[i]]
            0 <= i < out@.len() ==> exists|j: int|
                #![trigger items@[j]]
                0 <= j < items@.len() && out@[i] == items@[j],
        forall|j: int|
            #![trigger items@[j]]
            0 <= j < items@.len() ==> exists|i: int|
                #![trigger out@[i]]
                0 <= i < out@.len() && out@[i] == items@[j],
{
    let n = items.len();
    let mut used: Vec<bool> = Vec::new();
    for i in 0..n
        invariant
            used@.len() == i,
            forall|j: int| 0 <= j < i ==> !used@[j],
    {
        used.push(false);
    }
    proof {
        lemma_count_set_same(used@, Seq::new(n as nat, |j: int| false), n as int);
        assert(count_set(Seq::new(n as nat, |j: int| false), n as int) == 0) by {
            lemma_count_zero(Seq::new(n as nat, |j: int| false), n as int);
        }
    }
    let mut out: Vec<TopLevelItem> = Vec::new();
    for k in 0..n
        invariant
            n == items@.len(),
            used@.len() == n,
            out@.len() == k,
            count_set(used@, n as int) == k,
            // the flags mirror membership
            forall|j: int|
                #![trigger used@[j]]
                0 <= j < n && used@[j] ==> exists|i: int|
                    #![trigger out@[i]]
                    0 <= i < out@.len() && out@[i] == items@[j],
            forall|i: int|
                #![trigger out@[i]]
                0 <= i < out@.len() ==> exists|j: int|
                    #![trigger items@[j]]
                    0 <= j < n && out@[i] == items@[j],
            // everything appended precedes everything still unused
            forall|i: int, j: int|
                0 <= i < out@.len() && 0 <= j < n && !used@[j] ==> str_le(
                    crate::token::name_view(*strs, (#[trigger] out@[i]).name),
                    crate::token::name_view(*strs, (#[trigger] items@[j]).name),
                ),
            forall|i: int, j: int|
                0 <= i < j < out@.len() ==> str_le(
                    crate::token::name_view(*strs, (#[trigger] out@[i]).name),
                    crate::token::name_view(*strs, (#[trigger] out@[j]).name),
                ),
    {
        proof {
            lemma_unset_exists(used@, n as int);
        }
        let mut best: usize = 0;
        let mut have = false;
        for j in 0..n
            invariant
                n == items@.len(),
                used@.len() == n,
                have ==> best < n && !used@[best as int] && (forall|u: int|
                    0 <= u < j && !used@[u] ==> str_le(
                        crate::token::name_view(*strs, items@[best as int].name),
                        crate::token::name_view(*strs, (#[trigger] items@[u]).name),
                    )),
                !have ==> forall|u: int| 0 <= u < j ==> used@[u],
        {
            let ghost old_best = best;
            let ghost old_have = have;
            if !used[j] {
                if !have {
                    best = j;
                    have = true;
                } else {
                    let jb = str_le_exec(
                        strs.get_name(items[j].name),
                        strs.get_name(items[best].name),
                    );
                    proof {
                        lemma_str_le_total(
                            crate::token::name_view(*strs, items@[j as int].name),
                            crate::token::name_view(*strs, items@[best as int].name),
                            0,
                        );
                    }
                    if jb {
                        best = j;
                    }
                }
            }
            proof {
                if have {
                    assert forall|u: int| 0 <= u < j + 1 && !used@[u] implies str_le(
                        crate::token::name_view(*strs, items@[best as int].name),
                        crate::token::name_view(*strs, (#[trigger] items@[u]).name),
                    ) by {
                        lemma_str_le_total(
                            crate::token::name_view(*strs, items@[best as int].name),
                            crate::token::name_view(*strs, items@[u].name),
                            0,
                        );
                        if u < j && old_have && old_best != best {
                            lemma_str_le_trans(
                                crate::token::name_view(*strs, items@[best as int].name),
                                crate::token::name_view(*strs, items@[old_best as int].name),
                                crate::token::name_view(*strs, items@[u].name),
                                0,
                            );
                        }
                    }
                }
            }
        }
        proof {
            assert(have);
        }
        let ghost used_pre = used@;
        let ghost out_pre = out@;
        let picked = clone_item(&items[best]);
        used.set(best, true);
        out.push(picked);
        proof {
            lemma_count_set_update(used_pre, n as int, best as int);
            assert(count_set(used@, n as int) == k + 1) by {
                lemma_count_set_same(used@, used_pre.update(best as int, true), n as int);
            };
            assert(out@[out@.len() - 1] == items@[best as int]);
            assert forall|j: int| #![trigger used@[j]] 0 <= j < n && used@[j] implies exists|i: int|
                #![trigger out@[i]]
                0 <= i < out@.len() && out@[i] == items@[j] by {
                if j == best {
                    assert(out@[out@.len() - 1] == items@[j]);
                } else {
                    assert(used_pre[j]);
                    let i = choose|i: int|
                        #![trigger out_pre[i]]
                        0 <= i < out_pre.len() && out_pre[i] == items@[j];
                    assert(out@[i] == items@[j]);
                }
            }
        }
    }
    proof {
        lemma_all_set(used@, n as int);
        assert forall|j: int| #![trigger items@[j]] 0 <= j < items@.len() implies exists|i: int|
            #![trigger out@[i]]
            0 <= i < out@.len() && out@[i] == items@[j] by {
            assert(used@[j]);
        }
    }
    out
}

/// An all-clear flag list counts zero.
proof fn lemma_count_zero(s: Seq<bool>, n: int)
    requires
        forall|j: int| 0 <= j < n ==> !s[j],
        n <= s.len(),
    ensures
        count_set(s, n) == 0,
    decreases n,
{
    if n > 0 {
        lemma_count_zero(s, n - 1);
    }
}

/// The documentation-index builder command.
pub struct CmdDoc {
}

impl CmdDoc {
    pub fn new() -> (c: CmdDoc) {
        CmdDoc {  }
    }

    /// Gathers the visible entities of a finished session, in table
    /// order, each with its display label; `sort_items_by_name` puts
    /// an index section into name order.
    #[verifier::loop_isolation(false)]
    pub fn collect_entities(&self, tab: &SymbolTable, strs: &StrTable) -> (out: Vec<TopLevelItem>)
        ensures
            out@.len() == entity_indices_upto(tab.symbols@, tab.symbols@.len() as int).len(),
            forall|i: int|
                0 <= i < out@.len() ==> {
                    let idx = entity_indices_upto(tab.symbols@, tab.symbols@.len() as int)[i];
                    &&& (#[trigger] out@[i]).symbol_id == idx
                    &&& out@[i].name == tab.symbols@[idx].token.text
                },
    {
        let mut out: Vec<TopLevelItem> = Vec::new();
        let n = tab.symbols.len();
        for k in 0..n
            invariant
                out@.len() == entity_indices_upto(tab.symbols@, k as int).len(),
                forall|i: int|
                    0 <= i < out@.len() ==> {
                        let idx = entity_indices_upto(tab.symbols@, k as int)[i];
                        &&& (#[trigger] out@[i]).symbol_id == idx
                        &&& out@[i].name == tab.symbols@[idx].token.text
                    },
        {
            let s = &tab.symbols[k];
            let ghost before = entity_indices_upto(tab.symbols@, k as int);
            if s.public && s.namespace.len() == 0 {
                match &s.kind {
                    SymbolKind::Entity(ep) => {
                        let html = fmt_generic_parameters(
                            strs.get_name(s.token.text),
                            &ep.generic_parameters,
                            strs,
                        );
                        out.push(
                            TopLevelItem { name: s.token.text, html_name: html, symbol_id: k },
                        );
                    },
                    _ => {},
                }
            }
            proof {
                let after = entity_indices_upto(tab.symbols@, k + 1 as int);
                if doc_visible(tab.symbols@[k as int]) && tab.symbols@[k as int].kind is Entity {
                    assert(after == before.push(k as int));
                } else {
                    assert(after == before);
                }
            }
        }
        out
    }

    /// Gathers the visible symbols of one further section of the
    /// index, in table order: exactly the public top-level prototypes,
    /// interfaces, or packages, each labelled by its own name;
    /// `sort_items_by_name` puts a section into name order.
    #[verifier::loop_isolation(false)]
    pub fn collect_kind(&self, tab: &SymbolTable, strs: &StrTable, section: DocSection) -> (out:
        Vec<TopLevelItem>)
        ensures
            out@.len() == section_indices_upto(
                tab.symbols@,
                section,
                tab.symbols@.len() as int,
            ).len(),
            forall|i: int|
                0 <= i < out@.len() ==> {
                    let idx = section_indices_upto(
                        tab.symbols@,
                        section,
                        tab.symbols@.len() as int,
                    )[i];
                    &&& (#[trigger] out@[i]).symbol_id == idx
                    &&& out@[i].name == tab.symbols@[idx].token.text
                    &&& out@[i].html_name@ == crate::token::name_view(
                        *strs,
                        tab.symbols@[idx].token.text,
                    )
                },
    {
        let mut out: Vec<TopLevelItem> = Vec::new();
        let n = tab.symbols.len();
        for k in 0..n
            invariant
                out@.len() == section_indices_upto(tab.symbols@, section, k as int).len(),
                forall|i: int|
                    0 <= i < out@.len() ==> {
                        let idx = section_indices_upto(tab.symbols@, section, k as int)[i];
                        &&& (#[trigger] out@[i]).symbol_id == idx
                        &&& out@[i].name == tab.symbols@[idx].token.text
                        &&& out@[i].html_name@ == crate::token::name_view(
                            *strs,
                            tab.symbols@[idx].token.text,
                        )
                    },
        {
            let s = &tab.symbols[k];
            let ghost before = section_indices_upto(tab.symbols@, section, k as int);
            if s.public && s.namespace.len() == 0 {
                let keep = match (&s.kind, section) {
                    (SymbolKind::ProtoEntity(_), DocSection::Proto) => true,
                    (SymbolKind::Interface(_), DocSection::Interface) => true,
                    (SymbolKind::Package(_), DocSection::Package) => true,
                    _ => false,
                };
                if keep {
                    let html = String::from_str(strs.get_name(s.token.text));
                    out.push(TopLevelItem { name: s.token.text, html_name: html, symbol_id: k });
                }
            }
            proof {
                let after = section_indices_upto(tab.symbols@, section, k + 1 as int);
                if doc_visible(tab.symbols@[k as int]) && section_selects(
                    tab.symbols@[k as int].kind,
                    section,
                ) {
                    assert(after == before.push(k as int));
                } else {
                    assert(after == before);
                }
            }
        }
        out
    }
}

} // verus!
