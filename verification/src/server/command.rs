use vstd::prelude::*;

use crate::server::store::EntryView;
use crate::server::store::Store;
use crate::server::store::Value;
use crate::server::store::ValueView;
use crate::server::store::deadline_of;
use crate::server::store::get_contents_after;
use crate::server::store::get_result;
use crate::server::store::set_contents;
use crate::server::store::ttl_of;
use crate::text::all_digits;
use crate::text::bool_text;
use crate::text::bytes_to_text;
use crate::text::dec_digits;
use crate::text::dec_digits_signed;
use crate::text::dec_value;
use crate::text::i64_literal_ok;
use crate::text::i64_literal_value;
use crate::text::parse_i64;
use crate::text::parse_u128;
use crate::text::render_bool;
use crate::text::render_i64;
use crate::text::render_u128;
use crate::text::str_eq;
use crate::text::tokenize;
use crate::text::tokens_of;
use crate::text::utf8_lossy;
use vstd::string::StrSliceExecFns;
use vstd::string::StringExecFns;
use vstd::utf8::encode_utf8;

verus! {

/// One decoded command of the line protocol.
pub enum Command {
    Ping,
    TextSet { key: String, value: Value, exp_time_in_millis: Option<u128> },
    ByteSet { key: String, value: Value, exp_time_in_millis: Option<u128> },
    ISet { key: String, value: Value, exp_time_in_millis: Option<u128> },
    BSet { key: String, value: Value, exp_time_in_millis: Option<u128> },
    Get { key: String },
    Del { key: String },
    Expire { key: String, millis: u64 },
    Ttl { key: String },
}

/// A valid `EX` argument: decimal seconds whose millisecond equivalent fits
/// the deadline arithmetic.
pub open spec fn ex_seconds_ok(t: Seq<char>) -> bool {
    t.len() > 0 && all_digits(t) && dec_value(t) * 1000 <= u128::MAX
}

/// The millisecond time-to-live that an `EX` argument denotes.
pub open spec fn ex_millis(t: Seq<char>) -> u128 {
    (dec_value(t) * 1000) as u128
}

/// A valid `EXPIRE` argument: decimal seconds whose millisecond equivalent
/// fits the command's field.
pub open spec fn expire_seconds_ok(t: Seq<char>) -> bool {
    t.len() > 0 && all_digits(t) && dec_value(t) * 1000 <= u64::MAX
}

/// A valid `BSET` argument.
pub open spec fn bool_token_ok(t: Seq<char>) -> bool {
    t == bool_text(true) || t == bool_text(false)
}

/// The token lists that form a well-formed command.
pub open spec fn grammar_ok(toks: Seq<Seq<char>>) -> bool {
    ||| toks.len() == 1 && toks[0] == "PING"@
    ||| toks.len() == 3 && toks[0] == "SET"@
    ||| toks.len() == 5 && toks[0] == "SET"@ && toks[3] == "EX"@ && ex_seconds_ok(toks[4])
    ||| toks.len() == 3 && toks[0] == "BYTESET"@
    ||| toks.len() == 5 && toks[0] == "BYTESET"@ && toks[3] == "EX"@ && ex_seconds_ok(toks[4])
    ||| toks.len() == 3 && toks[0] == "ISET"@ && i64_literal_ok(toks[2])
    ||| toks.len() == 3 && toks[0] == "BSET"@ && bool_token_ok(toks[2])
    ||| toks.len() == 5 && toks[0] == "BSET"@ && bool_token_ok(toks[2]) && toks[3] == "EX"@
        && ex_seconds_ok(toks[4])
    ||| toks.len() == 2 && toks[0] == "GET"@
    ||| toks.len() == 2 && toks[0] == "DEL"@
    ||| toks.len() == 3 && toks[0] == "EXPIRE"@ && expire_seconds_ok(toks[2])
    ||| toks.len() == 2 && toks[0] == "TTL"@
}

/// The command denoted by a well-formed token list.
pub open spec fn command_matches(c: Command, toks: Seq<Seq<char>>) -> bool {
    match c {
        Command::Ping => toks.len() == 1 && toks[0] == "PING"@,
        Command::TextSet { key, value, exp_time_in_millis } => {
            &&& toks[0] == "SET"@
            &&& key@ == toks[1]
            &&& value@ == ValueView::Text(toks[2])
            &&& if toks.len() == 3 {
                exp_time_in_millis == None::<u128>
            } else {
                toks.len() == 5 && toks[3] == "EX"@ && ex_seconds_ok(toks[4])
                    && exp_time_in_millis == Some(ex_millis(toks[4]))
            }
        },
        Command::ByteSet { key, value, exp_time_in_millis } => {
            &&& toks[0] == "BYTESET"@
            &&& key@ == toks[1]
            &&& value@ == ValueView::Bytes(encode_utf8(toks[2]))
            &&& if toks.len() == 3 {
                exp_time_in_millis == None::<u128>
            } else {
                toks.len() == 5 && toks[3] == "EX"@ && ex_seconds_ok(toks[4])
                    && exp_time_in_millis == Some(ex_millis(toks[4]))
            }
        },
        Command::ISet { key, value, exp_time_in_millis } => {
            &&& toks.len() == 3
            &&& toks[0] == "ISET"@
            &&& key@ == toks[1]
            &&& i64_literal_ok(toks[2])
            &&& value@ matches ValueView::Integer(i) && i as int == i64_literal_value(toks[2])
            &&& exp_time_in_millis == None::<u128>
        },
        Command::BSet { key, value, exp_time_in_millis } => {
            &&& toks[0] == "BSET"@
            &&& key@ == toks[1]
            &&& value@ == ValueView::Boolean(toks[2] == bool_text(true))
            &&& bool_token_ok(toks[2])
            &&& if toks.len() == 3 {
                exp_time_in_millis == None::<u128>
            } else {
                toks.len() == 5 && toks[3] == "EX"@ && ex_seconds_ok(toks[4])
                    && exp_time_in_millis == Some(ex_millis(toks[4]))
            }
        },
        Command::Get { key } => toks.len() == 2 && toks[0] == "GET"@ && key@ == toks[1],
        Command::Del { key } => toks.len() == 2 && toks[0] == "DEL"@ && key@ == toks[1],
        Command::Expire { key, millis } => {
            &&& toks.len() == 3
            &&& toks[0] == "EXPIRE"@
            &&& key@ == toks[1]
            &&& expire_seconds_ok(toks[2])
            &&& millis == (dec_value(toks[2]) * 1000) as u64
        },
        Command::Ttl { key } => toks.len() == 2 && toks[0] == "TTL"@ && key@ == toks[1],
    }
}

/// The textual rendering of a value for a GET reply.
pub open spec fn rendered_value(v: ValueView) -> Seq<char> {
    match v {
        ValueView::Text(s) => s,
        ValueView::Bytes(b) => utf8_lossy(b),
        ValueView::Integer(i) => dec_digits_signed(i as int),
        ValueView::Boolean(b) => bool_text(b),
    }
}

impl Command {
    /// Decode one protocol line into a command. Succeeds exactly on the
    /// well-formed token lists of the grammar; anything else yields a
    /// descriptive message and no partial effect.
    pub fn parse(input: &str) -> (r: Result<Command, String>)
        ensures
            r is Ok <==> grammar_ok(tokens_of(input@)),
            r matches Ok(c) ==> command_matches(c, tokens_of(input@)),
    {
        let toks = tokenize(input);
        let n = toks.len();
        proof {
            reveal_strlit("PING");
            reveal_strlit("SET");
            reveal_strlit("BYTESET");
            reveal_strlit("ISET");
            reveal_strlit("BSET");
            reveal_strlit("GET");
            reveal_strlit("DEL");
            reveal_strlit("EXPIRE");
            reveal_strlit("TTL");
            reveal_strlit("EX");
            assert("ISET"@[0] == 'I' && "BSET"@[0] == 'B');
            assert("GET"@[0] == 'G' && "DEL"@[0] == 'D' && "TTL"@[0] == 'T');
            assert("SET"@.len() == 3 && "BYTESET"@.len() == 7 && "ISET"@.len() == 4 && "BSET"@.len()
                == 4 && "EXPIRE"@.len() == 6);
            assert("GET"@.len() == 3 && "DEL"@.len() == 3 && "TTL"@.len() == 3);
            assert("SET"@ != "BYTESET"@ && "SET"@ != "ISET"@ && "SET"@ != "BSET"@ && "SET"@
                != "EXPIRE"@);
            assert("BYTESET"@ != "ISET"@ && "BYTESET"@ != "BSET"@ && "BYTESET"@ != "EXPIRE"@);
            assert("ISET"@ != "BSET"@ && "ISET"@ != "EXPIRE"@);
            assert("BSET"@ != "EXPIRE"@);
            assert("GET"@ != "DEL"@ && "GET"@ != "TTL"@ && "DEL"@ != "TTL"@);
            assert(toks.deep_view().len() == toks@.len());
            assert forall|i: int| 0 <= i < toks@.len() implies toks.deep_view()[i]
                == toks@[i]@ by {}
        }
        if n == 1 && str_eq(toks[0].as_str(), "PING") {
            return Ok(Command::Ping);
        }
        if n == 3 && str_eq(toks[0].as_str(), "SET") {
            return Ok(
                Command::TextSet {
                    key: toks[1].clone(),
                    value: Value::Text(toks[2].clone()),
                    exp_time_in_millis: None,
                },
            );
        }
        if n == 5 && str_eq(toks[0].as_str(), "SET") && str_eq(toks[3].as_str(), "EX") {
            return match parse_ex_seconds(&toks[4]) {
                Some(ms) => Ok(
                    Command::TextSet {
                        key: toks[1].clone(),
                        value: Value::Text(toks[2].clone()),
                        exp_time_in_millis: Some(ms),
                    },
                ),
                None => Err(invalid_argument("invalid expiration time: ", toks[4].as_str())),
            };
        }
        if n == 3 && str_eq(toks[0].as_str(), "BYTESET") {
            return Ok(
                Command::ByteSet {
                    key: toks[1].clone(),
                    value: Value::Bytes(toks[2].as_str().as_bytes_vec()),
                    exp_time_in_millis: None,
                },
            );
        }
        if n == 5 && str_eq(toks[0].as_str(), "BYTESET") && str_eq(toks[3].as_str(), "EX") {
            return match parse_ex_seconds(&toks[4]) {
                Some(ms) => Ok(
                    Command::ByteSet {
                        key: toks[1].clone(),
                        value: Value::Bytes(toks[2].as_str().as_bytes_vec()),
                        exp_time_in_millis: Some(ms),
                    },
                ),
                None => Err(invalid_argument("invalid expiration time: ", toks[4].as_str())),
            };
        }
        if n == 3 && str_eq(toks[0].as_str(), "ISET") {
            return match parse_i64(toks[2].as_str()) {
                Some(i) => Ok(
                    Command::ISet {
                        key: toks[1].clone(),
                        value: Value::Integer(i),
                        exp_time_in_millis: None,
                    },
                ),
                None => Err(invalid_argument("invalid integer value: ", toks[2].as_str())),
            };
        }
        if n == 3 && str_eq(toks[0].as_str(), "BSET") {
            return match parse_bool_token(&toks[2]) {
                Some(b) => Ok(
                    Command::BSet {
                        key: toks[1].clone(),
                        value: Value::Boolean(b),
                        exp_time_in_millis: None,
                    },
                ),
                None => Err(invalid_argument("invalid boolean value: ", toks[2].as_str())),
            };
        }
        if n == 5 && str_eq(toks[0].as_str(), "BSET") && str_eq(toks[3].as_str(), "EX") {
            return match parse_bool_token(&toks[2]) {
                Some(b) => match parse_ex_seconds(&toks[4]) {
                    Some(ms) => Ok(
                        Command::BSet {
                            key: toks[1].clone(),
                            value: Value::Boolean(b),
                            exp_time_in_millis: Some(ms),
                        },
                    ),
                    None => Err(invalid_argument("invalid expiration time: ", toks[4].as_str())),
                },
                None => Err(invalid_argument("invalid boolean value: ", toks[2].as_str())),
            };
        }
        if n == 2 && str_eq(toks[0].as_str(), "GET") {
            return Ok(Command::Get { key: toks[1].clone() });
        }
        if n == 2 && str_eq(toks[0].as_str(), "DEL") {
            return Ok(Command::Del { key: toks[1].clone() });
        }
        if n == 3 && str_eq(toks[0].as_str(), "EXPIRE") {
            return match parse_expire_seconds(&toks[2]) {
                Some(ms) => Ok(Command::Expire { key: toks[1].clone(), millis: ms }),
                None => Err(invalid_argument("invalid seconds: ", toks[2].as_str())),
            };
        }
        if n == 2 && str_eq(toks[0].as_str(), "TTL") {
            return Ok(Command::Ttl { key: toks[1].clone() });
        }
        Err(invalid_argument("invalid command: ", input))
    }

    /// The clock reading leaves room for the command's deadline arithmetic.
    pub open spec fn deadline_fits(self, now: u128) -> bool {
        match self {
            Command::TextSet { exp_time_in_millis, .. } => (exp_time_in_millis matches Some(ms)
                ==> now + ms <= u128::MAX),
            Command::ByteSet { exp_time_in_millis, .. } => (exp_time_in_millis matches Some(ms)
                ==> now + ms <= u128::MAX),
            Command::ISet { exp_time_in_millis, .. } => (exp_time_in_millis matches Some(ms) ==> now
                + ms <= u128::MAX),
            Command::BSet { exp_time_in_millis, .. } => (exp_time_in_millis matches Some(ms) ==> now
                + ms <= u128::MAX),
            Command::Expire { millis, .. } => now + millis <= u128::MAX,
            _ => true,
        }
    }

    /// Run the command against the store at clock reading `now` and build
    /// the reply line: the acknowledgement for PING, OK for mutations, the
    /// rendered value or nil for GET, OK or nil for DEL and EXPIRE, and the
    /// absolute deadline or nil for TTL.
    pub fn execute(&self, store: &mut Store, now: u128) -> (r: String)
        requires
            old(store).inv(),
            self.deadline_fits(now),
        ensures
            final(store).inv(),
            ({
                let m0 = old(store).contents();
                match *self {
                    Command::Ping => final(store).contents() == m0 && r@ == "PONG"@,
                    Command::TextSet { key, value, exp_time_in_millis } => {
                        &&& final(store).contents() == set_contents(
                            m0,
                            key@,
                            value@,
                            deadline_of(now, exp_time_in_millis),
                        )
                        &&& r@ == "OK"@
                    },
                    Command::ByteSet { key, value, exp_time_in_millis } => {
                        &&& final(store).contents() == set_contents(
                            m0,
                            key@,
                            value@,
                            deadline_of(now, exp_time_in_millis),
                        )
                        &&& r@ == "OK"@
                    },
                    Command::ISet { key, value, exp_time_in_millis } => {
                        &&& final(store).contents() == set_contents(
                            m0,
                            key@,
                            value@,
                            deadline_of(now, exp_time_in_millis),
                        )
                        &&& r@ == "OK"@
                    },
                    Command::BSet { key, value, exp_time_in_millis } => {
                        &&& final(store).contents() == set_contents(
                            m0,
                            key@,
                            value@,
                            deadline_of(now, exp_time_in_millis),
                        )
                        &&& r@ == "OK"@
                    },
                    Command::Get { key } => {
                        &&& final(store).contents() == get_contents_after(m0, key@, now)
                        &&& r@ == (match get_result(m0, key@, now) {
                            Some(v) => rendered_value(v),
                            None => "nil"@,
                        })
                    },
                    Command::Del { key } => {
                        &&& final(store).contents() == m0.remove(key@)
                        &&& r@ == (if m0.dom().contains(key@) {
                            "OK"@
                        } else {
                            "nil"@
                        })
                    },
                    Command::Expire { key, millis } => {
                        if m0.dom().contains(key@) {
                            &&& final(store).contents() == m0.insert(
                                key@,
                                EntryView {
                                    value: m0[key@].value,
                                    expires_at: Some((now + millis) as u128),
                                },
                            )
                            &&& r@ == "OK"@
                        } else {
                            &&& final(store).contents() == m0
                            &&& r@ == "nil"@
                        }
                    },
                    Command::Ttl { key } => {
                        &&& final(store).contents() == m0
                        &&& r@ == (match ttl_of(m0, key@) {
                            Some(t) => dec_digits(t as nat),
                            None => "nil"@,
                        })
                    },
                }
            }),
    {
        match self {
            Command::Ping => String::from_str("PONG"),
            Command::TextSet { key, value, exp_time_in_millis } => {
                store.set(key.clone(), value.clone(), *exp_time_in_millis, now);
                String::from_str("OK")
            },
            Command::ByteSet { key, value, exp_time_in_millis } => {
                store.set(key.clone(), value.clone(), *exp_time_in_millis, now);
                String::from_str("OK")
            },
            Command::ISet { key, value, exp_time_in_millis } => {
                store.set(key.clone(), value.clone(), *exp_time_in_millis, now);
                String::from_str("OK")
            },
            Command::BSet { key, value, exp_time_in_millis } => {
                store.set(key.clone(), value.clone(), *exp_time_in_millis, now);
                String::from_str("OK")
            },
            Command::Get { key } => {
                match store.get(key.as_str(), now) {
                    Some(v) => match v {
                        Value::Text(s) => s,
                        Value::Bytes(b) => bytes_to_text(&b),
                        Value::Integer(i) => render_i64(i),
                        Value::Boolean(b) => render_bool(b),
                    },
                    None => String::from_str("nil"),
                }
            },
            Command::Del { key } => {
                match store.delete(key.as_str()) {
                    Some(_) => String::from_str("OK"),
                    None => String::from_str("nil"),
                }
            },
            Command::Expire { key, millis } => {
                if store.set_expiration(key.as_str(), now + (*millis as u128)) {
                    String::from_str("OK")
                } else {
                    String::from_str("nil")
                }
            },
            Command::Ttl { key } => {
                match store.get_time_to_live(key.as_str()) {
                    Some(t) => render_u128(t),
                    None => String::from_str("nil"),
                }
            },
        }
    }
}

/// A descriptive parse failure: the complaint followed by the offending text.
fn invalid_argument(what: &str, arg: &str) -> (r: String)
    ensures
        r@ == what@ + arg@,
{
    String::from_str(what).concat(arg)
}

/// Parse an `EX` argument into milliseconds.
fn parse_ex_seconds(t: &String) -> (r: Option<u128>)
    ensures
        r is Some <==> ex_seconds_ok(t@),
        r matches Some(ms) ==> ms == ex_millis(t@),
{
    match parse_u128(t.as_str()) {
        Some(v) => {
            if v <= u128::MAX / 1000 {
                proof {
                    assert(v * 1000 <= (u128::MAX / 1000) * 1000 <= u128::MAX) by (nonlinear_arith)
                        requires
                            v <= u128::MAX / 1000,
                    ;
                }
                Some(v * 1000)
            } else {
                proof {
                    assert(v * 1000 > u128::MAX) by (nonlinear_arith)
                        requires
                            v > u128::MAX / 1000,
                    ;
                }
                None
            }
        },
        None => {
            proof {
                if t@.len() > 0 && all_digits(t@) {
                    assert(dec_value(t@) > u128::MAX);
                    assert(dec_value(t@) * 1000 >= dec_value(t@) * 1) by (nonlinear_arith);
                }
            }
            None
        },
    }
}

/// Parse an `EXPIRE` argument into milliseconds.
fn parse_expire_seconds(t: &String) -> (r: Option<u64>)
    ensures
        r is Some <==> expire_seconds_ok(t@),
        r matches Some(ms) ==> ms == (dec_value(t@) * 1000) as u64,
{
    match parse_u128(t.as_str()) {
        Some(v) => {
            if v <= (u64::MAX as u128) / 1000 {
                proof {
                    assert(v * 1000 <= ((u64::MAX as u128) / 1000) * 1000 <= u64::MAX) by (nonlinear_arith)
                        requires
                            v <= (u64::MAX as u128) / 1000,
                    ;
                }
                Some((v * 1000) as u64)
            } else {
                proof {
                    assert(v * 1000 > u64::MAX) by (nonlinear_arith)
                        requires
                            v > (u64::MAX as u128) / 1000,
                    ;
                }
                None
            }
        },
        None => {
            proof {
                if t@.len() > 0 && all_digits(t@) {
                    assert(dec_value(t@) > u128::MAX);
                    assert(dec_value(t@) * 1000 >= dec_value(t@) * 1) by (nonlinear_arith);
                }
            }
            None
        },
    }
}

/// Parse a `BSET` argument.
fn parse_bool_token(t: &String) -> (r: Option<bool>)
    ensures
        r is Some <==> bool_token_ok(t@),
        r matches Some(b) ==> b == (t@ == bool_text(true)),
{
    proof {
        reveal_strlit("true");
        reveal_strlit("false");
        assert("true"@ =~= bool_text(true));
        assert("false"@ =~= bool_text(false));
    }
    if str_eq(t.as_str(), "true") {
        Some(true)
    } else if str_eq(t.as_str(), "false") {
        Some(false)
    } else {
        None
    }
}

} // verus!
