//! The supported commands, their word forms, and recognition from words.

use vstd::prelude::*;
use crate::text::{
    all_digits, dec_nat, digits_val, eq_ignore_case, lemma_ci_ne_first, lemma_ci_refl,
    lemma_dec_nat_digits, lemma_dec_nat_val, parse_u64, word_matches,
};

verus! {

/// A decoded command.
#[derive(Debug, PartialEq)]
pub enum Command {
    Ping,
    Echo(String),
    SetVal(String, String, Option<u64>),
    Get(String),
    Info(String),
    ReplConf(String, Option<String>),
    Psync(String, String),
    Wait(u64, u64),
    ConfigGet(String),
    Keys(String),
}

/// The mathematical model of a command: each argument as a character
/// sequence, lifetimes and counts as numbers.
pub ghost enum CmdV {
    Ping,
    Echo(Seq<char>),
    SetVal(Seq<char>, Seq<char>, Option<u64>),
    Get(Seq<char>),
    Info(Seq<char>),
    ReplConf(Seq<char>, Option<Seq<char>>),
    Psync(Seq<char>, Seq<char>),
    Wait(u64, u64),
    ConfigGet(Seq<char>),
    Keys(Seq<char>),
}

impl View for Command {
    type V = CmdV;

    open spec fn view(&self) -> CmdV {
        match self {
            Command::Ping => CmdV::Ping,
            Command::Echo(m) => CmdV::Echo(m@),
            Command::SetVal(k, v, e) => CmdV::SetVal(k@, v@, *e),
            Command::Get(k) => CmdV::Get(k@),
            Command::Info(s) => CmdV::Info(s@),
            Command::ReplConf(a, b) => CmdV::ReplConf(
                a@,
                match b {
                    Some(x) => Some(x@),
                    None => None,
                },
            ),
            Command::Psync(id, off) => CmdV::Psync(id@, off@),
            Command::Wait(n, t) => CmdV::Wait(*n, *t),
            Command::ConfigGet(p) => CmdV::ConfigGet(p@),
            Command::Keys(p) => CmdV::Keys(p@),
        }
    }
}

/// Only `SET` mutates the keyspace.
pub open spec fn spec_is_write(c: CmdV) -> bool {
    c matches CmdV::SetVal(_, _, _)
}

impl Command {
    /// A write command must be propagated to every replica.
    pub fn is_write(&self) -> (r: bool)
        ensures
            r == spec_is_write(self@),
    {
        match self {
            Command::SetVal(_, _, _) => true,
            _ => false,
        }
    }
}

/// The canonical word form of a command: the name, upper case, then each
/// argument in order; a `SET` lifetime travels as `PX` and decimal
/// milliseconds, `WAIT` arguments as decimal text.
pub open spec fn words_of(c: CmdV) -> Seq<Seq<char>> {
    match c {
        CmdV::Ping => seq!["PING"@],
        CmdV::Echo(m) => seq!["ECHO"@, m],
        CmdV::SetVal(k, v, e) => match e {
            None => seq!["SET"@, k, v],
            Some(ms) => seq!["SET"@, k, v, "PX"@, dec_nat(ms as nat)],
        },
        CmdV::Get(k) => seq!["GET"@, k],
        CmdV::Info(s) => seq!["INFO"@, s],
        CmdV::ReplConf(a, b) => match b {
            None => seq!["REPLCONF"@, a],
            Some(x) => seq!["REPLCONF"@, a, x],
        },
        CmdV::Psync(id, off) => seq!["PSYNC"@, id, off],
        CmdV::Wait(n, t) => seq!["WAIT"@, dec_nat(n as nat), dec_nat(t as nat)],
        CmdV::ConfigGet(p) => seq!["CONFIG"@, "GET"@, p],
        CmdV::Keys(p) => seq!["KEYS"@, p],
    }
}

/// A numeric word: a nonempty digit run whose value fits in a `u64`.
pub open spec fn is_u64_word(w: Seq<char>) -> bool {
    w.len() > 0 && all_digits(w) && digits_val(w) <= u64::MAX
}

/// Which command, if any, a sequence of words denotes. The name word and
/// the `PX` marker are matched without regard to ASCII case; unknown names
/// and wrong arities denote no command.
pub open spec fn parse_words(ws: Seq<Seq<char>>) -> Option<CmdV> {
    if ws.len() == 0 {
        None
    } else if eq_ignore_case(ws[0], "PING"@) {
        if ws.len() == 1 {
            Some(CmdV::Ping)
        } else {
            None
        }
    } else if eq_ignore_case(ws[0], "ECHO"@) {
        if ws.len() == 2 {
            Some(CmdV::Echo(ws[1]))
        } else {
            None
        }
    } else if eq_ignore_case(ws[0], "SET"@) {
        if ws.len() == 3 {
            Some(CmdV::SetVal(ws[1], ws[2], None))
        } else if ws.len() == 5 && eq_ignore_case(ws[3], "PX"@) && is_u64_word(ws[4]) {
            Some(CmdV::SetVal(ws[1], ws[2], Some(digits_val(ws[4]) as u64)))
        } else {
            None
        }
    } else if eq_ignore_case(ws[0], "GET"@) {
        if ws.len() == 2 {
            Some(CmdV::Get(ws[1]))
        } else {
            None
        }
    } else if eq_ignore_case(ws[0], "INFO"@) {
        if ws.len() == 2 {
            Some(CmdV::Info(ws[1]))
        } else {
            None
        }
    } else if eq_ignore_case(ws[0], "REPLCONF"@) {
        if ws.len() == 2 {
            Some(CmdV::ReplConf(ws[1], None))
        } else if ws.len() == 3 {
            Some(CmdV::ReplConf(ws[1], Some(ws[2])))
        } else {
            None
        }
    } else if eq_ignore_case(ws[0], "PSYNC"@) {
        if ws.len() == 3 {
            Some(CmdV::Psync(ws[1], ws[2]))
        } else {
            None
        }
    } else if eq_ignore_case(ws[0], "WAIT"@) {
        if ws.len() == 3 && is_u64_word(ws[1]) && is_u64_word(ws[2]) {
            Some(CmdV::Wait(digits_val(ws[1]) as u64, digits_val(ws[2]) as u64))
        } else {
            None
        }
    } else if eq_ignore_case(ws[0], "CONFIG"@) {
        if ws.len() == 3 && eq_ignore_case(ws[1], "GET"@) {
            Some(CmdV::ConfigGet(ws[2]))
        } else {
            None
        }
    } else if eq_ignore_case(ws[0], "KEYS"@) {
        if ws.len() == 2 {
            Some(CmdV::Keys(ws[1]))
        } else {
            None
        }
    } else {
        None
    }
}

/// Recognition is left inverse to the canonical word form: the words of a
/// command denote that command and no other.
pub proof fn lemma_parse_words_of(c: CmdV)
    ensures
        parse_words(words_of(c)) == Some(c),
{
    reveal_strlit("PING");
    reveal_strlit("ECHO");
    reveal_strlit("SET");
    reveal_strlit("GET");
    reveal_strlit("INFO");
    reveal_strlit("REPLCONF");
    reveal_strlit("PSYNC");
    reveal_strlit("WAIT");
    reveal_strlit("CONFIG");
    reveal_strlit("KEYS");
    reveal_strlit("PX");
    let ws = words_of(c);
    match c {
        CmdV::Ping => {
            lemma_ci_refl("PING"@);
        },
        CmdV::Echo(_) => {
            lemma_ci_ne_first("ECHO"@, "PING"@);
            lemma_ci_refl("ECHO"@);
        },
        CmdV::SetVal(_, _, e) => {
            lemma_ci_ne_first("SET"@, "PING"@);
            lemma_ci_ne_first("SET"@, "ECHO"@);
            lemma_ci_refl("SET"@);
            if let Some(ms) = e {
                lemma_ci_refl("PX"@);
                lemma_dec_nat_digits(ms as nat);
                lemma_dec_nat_val(ms as nat);
                assert(is_u64_word(dec_nat(ms as nat)));
            }
        },
        CmdV::Get(_) => {
            lemma_ci_ne_first("GET"@, "PING"@);
            lemma_ci_ne_first("GET"@, "ECHO"@);
            lemma_ci_ne_first("GET"@, "SET"@);
            lemma_ci_refl("GET"@);
        },
        CmdV::Info(_) => {
            lemma_ci_ne_first("INFO"@, "PING"@);
            lemma_ci_ne_first("INFO"@, "ECHO"@);
            lemma_ci_ne_first("INFO"@, "SET"@);
            lemma_ci_ne_first("INFO"@, "GET"@);
            lemma_ci_refl("INFO"@);
        },
        CmdV::ReplConf(_, _) => {
            lemma_ci_refl("REPLCONF"@);
        },
        CmdV::Psync(_, _) => {
            lemma_ci_refl("PSYNC"@);
        },
        CmdV::Wait(n, t) => {
            lemma_ci_ne_first("WAIT"@, "PING"@);
            lemma_ci_ne_first("WAIT"@, "ECHO"@);
            lemma_ci_ne_first("WAIT"@, "SET"@);
            lemma_ci_ne_first("WAIT"@, "GET"@);
            lemma_ci_ne_first("WAIT"@, "INFO"@);
            lemma_ci_refl("WAIT"@);
            lemma_dec_nat_digits(n as nat);
            lemma_dec_nat_val(n as nat);
            lemma_dec_nat_digits(t as nat);
            lemma_dec_nat_val(t as nat);
            assert(is_u64_word(dec_nat(n as nat)));
            assert(is_u64_word(dec_nat(t as nat)));
        },
        CmdV::ConfigGet(_) => {
            lemma_ci_refl("CONFIG"@);
            lemma_ci_refl("GET"@);
        },
        CmdV::Keys(_) => {
            lemma_ci_ne_first("KEYS"@, "PING"@);
            lemma_ci_ne_first("KEYS"@, "ECHO"@);
            lemma_ci_ne_first("KEYS"@, "SET"@);
            lemma_ci_ne_first("KEYS"@, "GET"@);
            lemma_ci_ne_first("KEYS"@, "INFO"@);
            lemma_ci_ne_first("KEYS"@, "WAIT"@);
            lemma_ci_refl("KEYS"@);
        },
    }
}

/// The views of a vector of words.
pub open spec fn views_of(ws: Seq<String>) -> Seq<Seq<char>> {
    ws.map_values(|w: String| w@)
}

/// Recognises a command from its words, exactly as `parse_words` says.
pub fn command_from_words(words: &Vec<String>) -> (r: Option<Command>)
    ensures
        match r {
            Some(c) => parse_words(views_of(words@)) == Some(c@),
            None => parse_words(views_of(words@)) is None,
        },
{
    let ghost ws = views_of(words@);
    if words.len() == 0 {
        return None;
    }
    assert(ws.len() == words@.len());
    assert(ws[0] == words@[0]@);
    let w0 = &words[0];
    if word_matches(w0.as_str(), "PING") {
        if words.len() == 1 {
            Some(Command::Ping)
        } else {
            None
        }
    } else if word_matches(w0.as_str(), "ECHO") {
        if words.len() == 2 {
            assert(ws[1] == words@[1]@);
            Some(Command::Echo(words[1].clone()))
        } else {
            None
        }
    } else if word_matches(w0.as_str(), "SET") {
        if words.len() == 3 {
            assert(ws[1] == words@[1]@);
            assert(ws[2] == words@[2]@);
            Some(Command::SetVal(words[1].clone(), words[2].clone(), None))
        } else if words.len() == 5 {
            assert(ws[1] == words@[1]@);
            assert(ws[2] == words@[2]@);
            assert(ws[3] == words@[3]@);
            assert(ws[4] == words@[4]@);
            if word_matches(words[3].as_str(), "PX") {
                match parse_u64(words[4].as_str()) {
                    Some(ms) => Some(Command::SetVal(words[1].clone(), words[2].clone(), Some(ms))),
                    None => None,
                }
            } else {
                None
            }
        } else {
            None
        }
    } else if word_matches(w0.as_str(), "GET") {
        if words.len() == 2 {
            assert(ws[1] == words@[1]@);
            Some(Command::Get(words[1].clone()))
        } else {
            None
        }
    } else if word_matches(w0.as_str(), "INFO") {
        if words.len() == 2 {
            assert(ws[1] == words@[1]@);
            Some(Command::Info(words[1].clone()))
        } else {
            None
        }
    } else if word_matches(w0.as_str(), "REPLCONF") {
        if words.len() == 2 {
            assert(ws[1] == words@[1]@);
            Some(Command::ReplConf(words[1].clone(), None))
        } else if words.len() == 3 {
            assert(ws[1] == words@[1]@);
            assert(ws[2] == words@[2]@);
            Some(Command::ReplConf(words[1].clone(), Some(words[2].clone())))
        } else {
            None
        }
    } else if word_matches(w0.as_str(), "PSYNC") {
        if words.len() == 3 {
            assert(ws[1] == words@[1]@);
            assert(ws[2] == words@[2]@);
            Some(Command::Psync(words[1].clone(), words[2].clone()))
        } else {
            None
        }
    } else if word_matches(w0.as_str(), "WAIT") {
        if words.len() == 3 {
            assert(ws[1] == words@[1]@);
            assert(ws[2] == words@[2]@);
            match (parse_u64(words[1].as_str()), parse_u64(words[2].as_str())) {
                (Some(n), Some(t)) => Some(Command::Wait(n, t)),
                _ => None,
            }
        } else {
            None
        }
    } else if word_matches(w0.as_str(), "CONFIG") {
        if words.len() == 3 {
            assert(ws[1] == words@[1]@);
            assert(ws[2] == words@[2]@);
            if word_matches(words[1].as_str(), "GET") {
                Some(Command::ConfigGet(words[2].clone()))
            } else {
                None
            }
        } else {
            None
        }
    } else if word_matches(w0.as_str(), "KEYS") {
        if words.len() == 2 {
            assert(ws[1] == words@[1]@);
            Some(Command::Keys(words[1].clone()))
        } else {
            None
        }
    } else {
        None
    }
}

} // verus!
