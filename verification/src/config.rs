//! Startup configuration parsed from command-line arguments.

use vstd::prelude::*;
use crate::redis::commands::views_of;
use crate::redis::RedisState;
use crate::text::str_eq;

verus! {

/// The fixed configuration of a running instance. A master carries its
/// replication identity; a replica carries its master's address.
pub struct Config {
    pub port: String,
    pub role: RedisState,
    pub master_replid: Option<String>,
    pub master_repl_offset: Option<String>,
    pub master_host: Option<String>,
    pub master_port: Option<String>,
    pub rdb_dir: Option<String>,
    pub rdb_filename: Option<String>,
}

/// The configuration as character sequences.
pub ghost struct ConfigV {
    pub port: Seq<char>,
    pub role: RedisState,
    pub master_replid: Option<Seq<char>>,
    pub master_repl_offset: Option<Seq<char>>,
    pub master_host: Option<Seq<char>>,
    pub master_port: Option<Seq<char>>,
    pub rdb_dir: Option<Seq<char>>,
    pub rdb_filename: Option<Seq<char>>,
}

pub open spec fn view_opt(o: Option<String>) -> Option<Seq<char>> {
    match o {
        Some(x) => Some(x@),
        None => None,
    }
}

impl View for Config {
    type V = ConfigV;

    open spec fn view(&self) -> ConfigV {
        ConfigV {
            port: self.port@,
            role: self.role,
            master_replid: view_opt(self.master_replid),
            master_repl_offset: view_opt(self.master_repl_offset),
            master_host: view_opt(self.master_host),
            master_port: view_opt(self.master_port),
            rdb_dir: view_opt(self.rdb_dir),
            rdb_filename: view_opt(self.rdb_filename),
        }
    }
}

impl Config {
    /// A master knows its replication identity; a replica knows where its
    /// master listens.
    pub open spec fn wf(&self) -> bool {
        (self@.role == RedisState::Master ==> self@.master_replid is Some
            && self@.master_repl_offset is Some) && (self@.role == RedisState::Replica
            ==> self@.master_host is Some && self@.master_port is Some)
    }
}

/// Defaults before any flag is read: port 6379, master role.
pub open spec fn init_config() -> ConfigV {
    ConfigV {
        port: "6379"@,
        role: RedisState::Master,
        master_replid: None,
        master_repl_offset: None,
        master_host: None,
        master_port: None,
        rdb_dir: None,
        rdb_filename: None,
    }
}

/// A master's replication id and starting offset, filled in once parsing
/// is done.
pub open spec fn finish_config(acc: ConfigV) -> ConfigV {
    if acc.role == RedisState::Master {
        ConfigV {
            master_replid: Some("8371b4fb1155b71f4a04d3e1bc3e18c4a990aeeb"@),
            master_repl_offset: Some("0"@),
            ..acc
        }
    } else {
        acc
    }
}

/// The meaning of the argument list from position `i` on: recognised flags
/// consume their values, `--replicaof` consumes a host and a port and makes
/// the instance a replica, unknown words are ignored, and a recognised flag
/// with its value missing is fatal (no configuration).
pub open spec fn parse_args(args: Seq<Seq<char>>, i: int, acc: ConfigV) -> Option<ConfigV>
    decreases args.len() - i, when 0 <= i <= args.len()
{
    if i >= args.len() {
        Some(finish_config(acc))
    } else if args[i] == "--port"@ {
        if i + 1 < args.len() {
            parse_args(args, i + 2, ConfigV { port: args[i + 1], ..acc })
        } else {
            None
        }
    } else if args[i] == "--replicaof"@ {
        if i + 2 < args.len() {
            parse_args(
                args,
                i + 3,
                ConfigV {
                    role: RedisState::Replica,
                    master_host: Some(args[i + 1]),
                    master_port: Some(args[i + 2]),
                    ..acc
                },
            )
        } else {
            None
        }
    } else if args[i] == "--dir"@ {
        if i + 1 < args.len() {
            parse_args(args, i + 2, ConfigV { rdb_dir: Some(args[i + 1]), ..acc })
        } else {
            None
        }
    } else if args[i] == "--dbfilename"@ {
        if i + 1 < args.len() {
            parse_args(args, i + 2, ConfigV { rdb_filename: Some(args[i + 1]), ..acc })
        } else {
            None
        }
    } else {
        parse_args(args, i + 1, acc)
    }
}

impl Config {
    /// Parses the argument list, exactly as `parse_args` describes. `None`
    /// reports a recognised flag whose value is missing, which the caller
    /// treats as fatal.
    pub fn parse(args: &Vec<String>) -> (r: Option<Config>)
        ensures
            match r {
                Some(cfg) => parse_args(views_of(args@), 0, init_config()) == Some(cfg@)
                    && cfg.wf(),
                None => parse_args(views_of(args@), 0, init_config()) is None,
            },
    {
        let ghost ws = views_of(args@);
        let mut cfg = Config {
            port: String::from_str("6379"),
            role: RedisState::Master,
            master_replid: None,
            master_repl_offset: None,
            master_host: None,
            master_port: None,
            rdb_dir: None,
            rdb_filename: None,
        };
        assert(cfg@ == init_config());
        let n = args.len();
        let mut i: usize = 0;
        while i < n
            invariant
                0 <= i <= n,
                n == args@.len(),
                ws == views_of(args@),
                parse_args(ws, 0, init_config()) == parse_args(ws, i as int, cfg@),
                cfg.role == RedisState::Replica ==> cfg.master_host is Some
                    && cfg.master_port is Some,
            decreases n - i,
        {
            assert(ws[i as int] == args@[i as int]@);
            let ghost prev = cfg@;
            let a = &args[i];
            if str_eq(a.as_str(), "--port") {
                if i + 1 < n {
                    assert(ws[i + 1] == args@[i + 1]@);
                    cfg.port = args[i + 1].clone();
                    assert(cfg@ == (ConfigV { port: ws[i as int + 1], ..prev }));
                    i += 2;
                } else {
                    return None;
                }
            } else if str_eq(a.as_str(), "--replicaof") {
                if n - i > 2 {
                    assert(ws[i + 1] == args@[i + 1]@);
                    assert(ws[i + 2] == args@[i + 2]@);
                    cfg.role = RedisState::Replica;
                    cfg.master_host = Some(args[i + 1].clone());
                    cfg.master_port = Some(args[i + 2].clone());
                    assert(cfg@ == (ConfigV {
                        role: RedisState::Replica,
                        master_host: Some(ws[i as int + 1]),
                        master_port: Some(ws[i as int + 2]),
                        ..prev
                    }));
                    i += 3;
                } else {
                    return None;
                }
            } else if str_eq(a.as_str(), "--dir") {
                if i + 1 < n {
                    assert(ws[i + 1] == args@[i + 1]@);
                    cfg.rdb_dir = Some(args[i + 1].clone());
                    assert(cfg@ == (ConfigV { rdb_dir: Some(ws[i as int + 1]), ..prev }));
                    i += 2;
                } else {
                    return None;
                }
            } else if str_eq(a.as_str(), "--dbfilename") {
                if i + 1 < n {
                    assert(ws[i + 1] == args@[i + 1]@);
                    cfg.rdb_filename = Some(args[i + 1].clone());
                    assert(cfg@ == (ConfigV { rdb_filename: Some(ws[i as int + 1]), ..prev }));
                    i += 2;
                } else {
                    return None;
                }
            } else {
                i += 1;
            }
        }
        let ghost pre = cfg@;
        if cfg.role == RedisState::Master {
            cfg.master_replid = Some(String::from_str("8371b4fb1155b71f4a04d3e1bc3e18c4a990aeeb"));
            cfg.master_repl_offset = Some(String::from_str("0"));
        }
        proof {
            assert(cfg@ == finish_config(pre));
        }
        Some(cfg)
    }
}

} // verus!
