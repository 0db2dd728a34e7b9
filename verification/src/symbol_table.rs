use vstd::prelude::*;
use crate::diag::{DiagCode, Diagnostic};
use crate::symbol::{GenericInstanceProperty, GenericParameter, Symbol, SymbolKind};
use crate::token::{StrId, StrTable, Token};

verus! {

/// Index of a symbol in the session's arena.
pub type SymbolId = usize;

/// The least index at or after `i` of a symbol with the given
/// namespace and name.
pub open spec fn lookup_from(
    syms: Seq<Symbol>,
    ns: Seq<StrId>,
    name: StrId,
    i: int,
) -> Option<int>
    decreases syms.len() - i,
{
    if i < 0 || i >= syms.len() {
        Option::None
    } else if syms[i].namespace@ == ns && syms[i].token.text == name {
        Option::Some(i)
    } else {
        lookup_from(syms, ns, name, i + 1)
    }
}

/// The least index of a symbol with the given namespace and name.
pub open spec fn lookup_spec(syms: Seq<Symbol>, ns: Seq<StrId>, name: StrId) -> Option<int> {
    lookup_from(syms, ns, name, 0)
}

/// Whether some symbol has the given namespace and name.
pub open spec fn name_taken(syms: Seq<Symbol>, ns: Seq<StrId>, name: StrId) -> bool {
    exists|i: int| 0 <= i < syms.len() && syms[i].namespace@ == ns && syms[i].token.text == name
}

/// Resolution of a name walking scopes from the innermost outward: the
/// symbol found in the longest namespace prefix of the context that
/// holds the name.
pub open spec fn resolve_base_spec(
    syms: Seq<Symbol>,
    context: Seq<StrId>,
    name: StrId,
) -> Option<int>
    decreases context.len(),
{
    match lookup_spec(syms, context, name) {
        Option::Some(i) => Option::Some(i),
        Option::None => {
            if context.len() == 0 {
                Option::None
            } else {
                resolve_base_spec(syms, context.drop_last(), name)
            }
        },
    }
}

/// Resolution of the later segments of a scoped path: each segment is
/// looked up in the namespace formed by appending the segments so far,
/// and the final name in the innermost one.
pub open spec fn resolve_in_spec(
    syms: Seq<Symbol>,
    ns: Seq<StrId>,
    path: Seq<StrId>,
    name: StrId,
) -> Option<int>
    decreases path.len(),
{
    if path.len() == 0 {
        lookup_spec(syms, ns, name)
    } else {
        match lookup_spec(syms, ns, path[0]) {
            Option::Some(_) => resolve_in_spec(syms, ns.push(path[0]), path.drop_first(), name),
            Option::None => Option::None,
        }
    }
}

/// Resolution of a scoped reference: the first segment is resolved
/// walking scopes outward; the rest descend namespaces from where it
/// was found.
pub open spec fn resolve_ref_spec(
    syms: Seq<Symbol>,
    context: Seq<StrId>,
    scope: Seq<StrId>,
    name: StrId,
) -> Option<int> {
    if scope.len() == 0 {
        resolve_base_spec(syms, context, name)
    } else {
        match resolve_base_spec(syms, context, scope[0]) {
            Option::Some(i) => resolve_in_spec(
                syms,
                syms[i].namespace@.push(scope[0]),
                scope.drop_first(),
                name,
            ),
            Option::None => Option::None,
        }
    }
}

/// Whether the generic-instantiation cache holds an entry for this base
/// symbol and argument tuple.
pub open spec fn cache_has(
    cache: Seq<(SymbolId, Seq<u64>, SymbolId)>,
    base: SymbolId,
    args: Seq<u64>,
) -> bool {
    exists|i: int| 0 <= i < cache.len() && cache[i].0 == base && cache[i].1 == args
}

/// The cached specialization id for this base symbol and argument
/// tuple, if one exists.
pub open spec fn cache_find(
    cache: Seq<(SymbolId, Seq<u64>, SymbolId)>,
    base: SymbolId,
    args: Seq<u64>,
    i: int,
) -> Option<SymbolId>
    decreases cache.len() - i,
{
    if i < 0 || i >= cache.len() {
        Option::None
    } else if cache[i].0 == base && cache[i].1 == args {
        Option::Some(cache[i].2)
    } else {
        cache_find(cache, base, args, i + 1)
    }
}

/// The append-only symbol arena of one compilation session, with the
/// memo cache that makes generic instantiation idempotent.
pub struct SymbolTable {
    pub symbols: Vec<Symbol>,
    pub generic_cache: Vec<(SymbolId, Vec<u64>, SymbolId)>,
}

/// The cache seen as a sequence of (base, argument tuple, result) rows.
pub open spec fn cache_view(cache: Seq<(SymbolId, Vec<u64>, SymbolId)>) -> Seq<(
    SymbolId,
    Seq<u64>,
    SymbolId,
)> {
    cache.map_values(|e: (SymbolId, Vec<u64>, SymbolId)| (e.0, e.1@, e.2))
}

impl SymbolTable {
    /// A fresh, empty session table.
    pub fn new() -> (t: SymbolTable)
        ensures
            t.symbols@.len() == 0,
            t.generic_cache@.len() == 0,
    {
        SymbolTable { symbols: Vec::new(), generic_cache: Vec::new() }
    }

    /// Forgets every symbol and cache row: the explicit reset between
    /// independent compilation runs.
    pub fn clear(&mut self)
        ensures
            final(self).symbols@.len() == 0,
            final(self).generic_cache@.len() == 0,
    {
        self.symbols = Vec::new();
        self.generic_cache = Vec::new();
    }

    /// The whole arena, for read-only walks.
    pub fn get_all(&self) -> (r: &Vec<Symbol>)
        ensures
            r == &self.symbols,
    {
        &self.symbols
    }

    /// The symbol of an id, if the id is in range.
    pub fn get(&self, id: SymbolId) -> (r: Option<&Symbol>)
        ensures
            id < self.symbols@.len() ==> r == Option::Some(&self.symbols@[id as int]),
            id >= self.symbols@.len() ==> r is None,
    {
        if id < self.symbols.len() {
            Some(&self.symbols[id])
        } else {
            None
        }
    }

    /// The least index of a symbol with this namespace and name.
    pub fn lookup(&self, ns: &Vec<StrId>, name: StrId) -> (r: Option<SymbolId>)
        ensures
            match r {
                Option::Some(id) => lookup_spec(self.symbols@, ns@, name) == Option::Some(
                    id as int,
                ) && id < self.symbols@.len(),
                Option::None => lookup_spec(self.symbols@, ns@, name) is None,
            },
    {
        let n = self.symbols.len();
        for i in 0..n
            invariant
                n == self.symbols@.len(),
                lookup_spec(self.symbols@, ns@, name) == lookup_from(
                    self.symbols@,
                    ns@,
                    name,
                    i as int,
                ),
        {
            let s = &self.symbols[i];
            if s.token.text == name && str_ids_equal(&s.namespace, ns) {
                return Some(i);
            }
        }
        None
    }

    /// Registers a declaration. Within one namespace no two symbols may
    /// share a name: a second registration yields the
    /// duplicated-identifier diagnostic and leaves the table unchanged.
    pub fn insert(&mut self, sym: Symbol, strs: &StrTable) -> (r: Result<SymbolId, Diagnostic>)
        ensures
            match r {
                Result::Ok(id) => {
                    &&& !name_taken(old(self).symbols@, sym.namespace@, sym.token.text)
                    &&& id == old(self).symbols@.len()
                    &&& final(self).symbols@ == old(self).symbols@.push(sym)
                },
                Result::Err(d) => {
                    &&& name_taken(old(self).symbols@, sym.namespace@, sym.token.text)
                    &&& final(self).symbols@ == old(self).symbols@
                    &&& d.code == DiagCode::DuplicatedIdentifier
                    &&& d.severity == crate::diag::severity_of(d.code)
                    &&& d.fields@.len() == 1 && d.fields@[0]@ == crate::token::name_view(
                        *strs,
                        sym.token.text,
                    )
                    &&& d.primary == (crate::token::TokenRange { beg: sym.token, end: sym.token })
                },
            },
            final(self).generic_cache@ == old(self).generic_cache@,
    {
        if let Some(_) = self.lookup(&sym.namespace, sym.token.text) {
            proof {
                lemma_lookup_implies_taken(self.symbols@, sym.namespace@, sym.token.text, 0);
            }
            let tok = sym.token;
            let range = crate::token::TokenRange { beg: tok, end: tok };
            Err(Diagnostic::duplicated_identifier(strs.get_name(sym.token.text), &range))
        } else {
            proof {
                lemma_lookup_none_implies_free(self.symbols@, sym.namespace@, sym.token.text, 0);
            }
            let id = self.symbols.len();
            self.symbols.push(sym);
            Ok(id)
        }
    }

    /// Resolution of a single name from a context namespace, walking
    /// scopes from the innermost outward.
    pub fn resolve_base(&self, context: &Vec<StrId>, name: StrId) -> (r: Option<SymbolId>)
        ensures
            match r {
                Option::Some(id) => resolve_base_spec(self.symbols@, context@, name)
                    == Option::Some(id as int) && id < self.symbols@.len(),
                Option::None => resolve_base_spec(self.symbols@, context@, name) is None,
            },
    {
        let mut prefix = context.clone();
        proof {
            assert(prefix@ =~= context@);
        }
        loop
            invariant
                resolve_base_spec(self.symbols@, context@, name) == resolve_base_spec(
                    self.symbols@,
                    prefix@,
                    name,
                ),
            decreases prefix@.len(),
        {
            if let Some(id) = self.lookup(&prefix, name) {
                return Some(id);
            }
            if prefix.len() == 0 {
                return None;
            }
            let ghost before = prefix@;
            prefix.pop();
            proof {
                assert(prefix@ =~= before.drop_last());
            }
        }
    }

    /// Resolution of a scoped reference: the first scope segment is
    /// resolved walking scopes outward, the rest descend namespaces.
    pub fn resolve_ref(
        &self,
        context: &Vec<StrId>,
        scope: &Vec<crate::ast::Ident>,
        name: StrId,
    ) -> (r: Option<SymbolId>)
        ensures
            ({
                let sc = scope@.map_values(|id: crate::ast::Ident| id.name);
                match r {
                    Option::Some(id) => resolve_ref_spec(self.symbols@, context@, sc, name)
                        == Option::Some(id as int) && id < self.symbols@.len(),
                    Option::None => resolve_ref_spec(self.symbols@, context@, sc, name) is None,
                }
            }),
    {
        let ghost sc = scope@.map_values(|id: crate::ast::Ident| id.name);
        if scope.len() == 0 {
            proof {
                assert(sc.len() == 0);
            }
            return self.resolve_base(context, name);
        }
        proof {
            assert(sc[0] == scope@[0].name);
        }
        let first = match self.resolve_base(context, scope[0].name) {
            Option::Some(i) => i,
            Option::None => {
                return None;
            },
        };
        let mut ns: Vec<StrId> = self.symbols[first].namespace.clone();
        ns.push(scope[0].name);
        proof {
            assert(ns@ =~= self.symbols@[first as int].namespace@.push(sc[0]));
        }
        let m = scope.len();
        for k in 1..m
            invariant
                m == scope@.len(),
                sc == scope@.map_values(|id: crate::ast::Ident| id.name),
                resolve_ref_spec(self.symbols@, context@, sc, name) == resolve_in_spec(
                    self.symbols@,
                    ns@,
                    sc.skip(k as int),
                    name,
                ),
        {
            proof {
                assert(sc[k as int] == scope@[k as int].name);
            }
            match self.lookup(&ns, scope[k].name) {
                Option::Some(_) => {},
                Option::None => {
                    proof {
                        assert(sc.skip(k as int)[0] == sc[k as int]);
                    }
                    return None;
                },
            }
            let ghost before = ns@;
            ns.push(scope[k].name);
            proof {
                assert(sc.skip(k as int)[0] == sc[k as int]);
                assert(sc.skip(k as int).drop_first() =~= sc.skip(k + 1 as int));
                assert(ns@ =~= before.push(sc[k as int]));
            }
        }
        proof {
            assert(sc.skip(m as int).len() == 0);
        }
        self.lookup(&ns, name)
    }

    /// The cached specialization for a base symbol and argument tuple.
    pub fn cache_lookup(&self, base: SymbolId, args: &Vec<u64>) -> (r: Option<SymbolId>)
        ensures
            match r {
                Option::Some(id) => cache_find(cache_view(self.generic_cache@), base, args@, 0)
                    == Option::Some(id),
                Option::None => !cache_has(cache_view(self.generic_cache@), base, args@),
            },
    {
        let n = self.generic_cache.len();
        let ghost cv = cache_view(self.generic_cache@);
        for i in 0..n
            invariant
                n == self.generic_cache@.len(),
                cv == cache_view(self.generic_cache@),
                cv.len() == n,
                forall|j: int| 0 <= j < n ==> cv[j] == (
                    self.generic_cache@[j].0,
                    self.generic_cache@[j].1@,
                    self.generic_cache@[j].2,
                ),
                cache_find(cv, base, args@, 0) == cache_find(cv, base, args@, i as int),
                forall|j: int| 0 <= j < i ==> !(cv[j].0 == base && cv[j].1 == args@),
        {
            let e = &self.generic_cache[i];
            if e.0 == base && u64s_equal(&e.1, args) {
                return Some(e.2);
            }
        }
        proof {
            lemma_cache_find_none(cv, base, args@, n as int);
        }
        None
    }

    /// Instantiates a generic symbol with an evaluated argument tuple.
    /// Instantiation is memoized: the same base and arguments always
    /// yield the same specialization id, and a repeated call changes
    /// nothing — so repeated instantiation can never raise a
    /// duplicated-identifier diagnostic and yields an identical
    /// specialization shape.
    pub fn instantiate(&mut self, base: SymbolId, args: &Vec<u64>) -> (r: SymbolId)
        requires
            base < old(self).symbols@.len(),
        ensures
            cache_has(cache_view(old(self).generic_cache@), base, args@) ==> {
                &&& final(self).symbols@ == old(self).symbols@
                &&& final(self).generic_cache@ == old(self).generic_cache@
                &&& cache_find(cache_view(old(self).generic_cache@), base, args@, 0)
                    == Option::Some(r)
            },
            !cache_has(cache_view(old(self).generic_cache@), base, args@) ==> {
                &&& r == old(self).symbols@.len()
                &&& final(self).symbols@.len() == old(self).symbols@.len() + 1
                &&& forall|j: int|
                    0 <= j < old(self).symbols@.len() ==> final(self).symbols@[j] == old(
                        self,
                    ).symbols@[j]
                &&& final(self).symbols@[r as int].kind matches SymbolKind::GenericInstance(g)
                    && g.base == base && g.args@ == args@
                &&& cache_view(final(self).generic_cache@) == cache_view(
                    old(self).generic_cache@,
                ).push((base, args@, r))
            },
            cache_has(cache_view(final(self).generic_cache@), base, args@),
    {
        if let Some(id) = self.cache_lookup(base, args) {
            proof {
                lemma_cache_find_implies_has(cache_view(self.generic_cache@), base, args@, 0);
            }
            return id;
        }
        let id = self.symbols.len();
        let base_sym = &self.symbols[base];
        let spec_sym = Symbol {
            token: base_sym.token,
            namespace: base_sym.namespace.clone(),
            public: base_sym.public,
            kind: SymbolKind::GenericInstance(
                GenericInstanceProperty { base, args: args.clone() },
            ),
        };
        self.symbols.push(spec_sym);
        self.generic_cache.push((base, args.clone(), id));
        proof {
            let cv = cache_view(self.generic_cache@);
            assert(cv =~= cache_view(old(self).generic_cache@).push((base, args@, id)));
            assert(cv[cv.len() - 1] == (base, args@, id));
        }
        id
    }
}

/// Exec equality of two id sequences.
pub fn str_ids_equal(a: &Vec<StrId>, b: &Vec<StrId>) -> (r: bool)
    ensures
        r == (a@ == b@),
{
    if a.len() != b.len() {
        proof {
            assert(a@.len() != b@.len() ==> a@ != b@);
        }
        return false;
    }
    let n = a.len();
    for i in 0..n
        invariant
            n == a@.len() == b@.len(),
            forall|j: int| 0 <= j < i ==> a@[j] == b@[j],
    {
        if a[i] != b[i] {
            return false;
        }
    }
    proof {
        assert(a@ =~= b@);
    }
    true
}

/// Exec equality of two value tuples.
pub fn u64s_equal(a: &Vec<u64>, b: &Vec<u64>) -> (r: bool)
    ensures
        r == (a@ == b@),
{
    if a.len() != b.len() {
        proof {
            assert(a@.len() != b@.len() ==> a@ != b@);
        }
        return false;
    }
    let n = a.len();
    for i in 0..n
        invariant
            n == a@.len() == b@.len(),
            forall|j: int| 0 <= j < i ==> a@[j] == b@[j],
    {
        if a[i] != b[i] {
            return false;
        }
    }
    proof {
        assert(a@ =~= b@);
    }
    true
}

/// A successful lookup means the name is taken.
proof fn lemma_lookup_implies_taken(syms: Seq<Symbol>, ns: Seq<StrId>, name: StrId, i: int)
    requires
        lookup_from(syms, ns, name, i) is Some,
    ensures
        name_taken(syms, ns, name),
    decreases syms.len() - i,
{
    if i < 0 || i >= syms.len() {
    } else if syms[i].namespace@ == ns && syms[i].token.text == name {
    } else {
        lemma_lookup_implies_taken(syms, ns, name, i + 1);
    }
}

/// A failed lookup means no symbol has the namespace and name.
proof fn lemma_lookup_none_implies_free(syms: Seq<Symbol>, ns: Seq<StrId>, name: StrId, i: int)
    requires
        lookup_from(syms, ns, name, i) is None,
        0 <= i <= syms.len(),
    ensures
        forall|j: int|
            i <= j < syms.len() ==> !(syms[j].namespace@ == ns && syms[j].token.text == name),
    decreases syms.len() - i,
{
    if i < syms.len() {
        lemma_lookup_none_implies_free(syms, ns, name, i + 1);
    }
}

/// A found cache row means the cache has the key.
proof fn lemma_cache_find_implies_has(
    cache: Seq<(SymbolId, Seq<u64>, SymbolId)>,
    base: SymbolId,
    args: Seq<u64>,
    i: int,
)
    requires
        cache_find(cache, base, args, i) is Some,
        0 <= i,
    ensures
        cache_has(cache, base, args),
    decreases cache.len() - i,
{
    if i < cache.len() {
        if cache[i].0 == base && cache[i].1 == args {
        } else {
            lemma_cache_find_implies_has(cache, base, args, i + 1);
        }
    }
}

/// A scan that found no row from `n` on, in a cache of length `n`,
/// found none at all.
proof fn lemma_cache_find_none(
    cache: Seq<(SymbolId, Seq<u64>, SymbolId)>,
    base: SymbolId,
    args: Seq<u64>,
    n: int,
)
    requires
        n == cache.len(),
        forall|j: int| 0 <= j < n ==> !(cache[j].0 == base && cache[j].1 == args),
    ensures
        !cache_has(cache, base, args),
{
}

} // verus!
