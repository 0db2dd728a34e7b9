pub mod check_coverage;
pub mod check_port;
pub mod check_power_domain;
pub mod check_power_enable;
pub mod check_proto;
pub mod check_statement;
