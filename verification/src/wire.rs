//! Character-exact parsing of the device's response bodies.
//!
//! A set operation (`/zeroconf/startups`, `/zeroconf/switches`) answers with
//! the envelope in one of two minimized spellings, `{"error":N}` or
//! `{"data":null,"error":N}`; an info request answers with a success payload
//! of per-outlet lists or with a null payload beside the error code.  The
//! parsers here accept exactly those texts — each contract says both that a
//! parsed envelope re-renders to the input and that a rejected input is no
//! envelope's rendering at all.

use vstd::prelude::*;

use crate::error::Error;
use crate::models::EmptyResponse;
use crate::models::InfoData;
use crate::models::InfoResponse;
use crate::models::Startup;
use crate::models::Switch;
use crate::positions::spec_parse_startup_token;
use crate::positions::spec_parse_switch_token;
use crate::text::expect_lit;
use crate::text::lemma_number_at_unique;
use crate::text::parse_number;
use crate::text::spec_dec;
use crate::text::spec_is_digit;
use crate::text::spec_lit_at;
use crate::text::spec_number_at;

verus! {

/// Where `a + b` stands at `p`, `a` stands at `p` and `b` just past it.
proof fn lemma_lit_at_split(s: Seq<char>, p: int, a: Seq<char>, b: Seq<char>)
    requires
        spec_lit_at(s, p, a + b),
    ensures
        spec_lit_at(s, p, a),
        spec_lit_at(s, p + a.len(), b),
{
    assert(s.subrange(p, p + (a + b).len() as int) == a + b);
    assert(s.subrange(p, p + a.len() as int) =~= a) by {
        assert forall|t: int| 0 <= t < a.len() implies s.subrange(p, p + a.len() as int)[t]
            == a[t] by {
            assert(s.subrange(p, p + (a + b).len() as int)[t] == s[p + t]);
            assert(s.subrange(p, p + a.len() as int)[t] == s[p + t]);
            assert((a + b)[t] == a[t]);
        }
    }
    assert(s.subrange(p + a.len(), p + a.len() + b.len() as int) =~= b) by {
        assert forall|t: int|
            0 <= t < b.len() implies s.subrange(p + a.len(), p + a.len() + b.len() as int)[t]
            == b[t] by {
            assert(s.subrange(p, p + (a + b).len() as int)[a.len() + t] == s[p + a.len() + t]);
            assert(s.subrange(p + a.len(), p + a.len() + b.len() as int)[t] == s[p + a.len() + t]);
            assert((a + b)[a.len() + t] == b[t]);
        }
    }
}

/// Where `a` stands at `p` and `b` just past it, `a + b` stands at `p`.
proof fn lemma_lit_at_join(s: Seq<char>, p: int, a: Seq<char>, b: Seq<char>)
    requires
        spec_lit_at(s, p, a),
        spec_lit_at(s, p + a.len(), b),
    ensures
        spec_lit_at(s, p, a + b),
{
    assert(s.subrange(p, p + (a + b).len() as int) =~= a + b) by {
        assert forall|t: int| 0 <= t < (a + b).len() implies s.subrange(
            p,
            p + (a + b).len() as int,
        )[t] == (a + b)[t] by {
            assert(s.subrange(p, p + (a + b).len() as int)[t] == s[p + t]);
            if t < a.len() {
                assert(s.subrange(p, p + a.len() as int)[t] == s[p + t]);
            } else {
                assert(s.subrange(p + a.len(), p + a.len() + b.len() as int)[t - a.len()] == s[p
                    + t]);
            }
        }
    }
}

/// The plain spelling of a set operation's response envelope.
pub open spec fn spec_empty_response_json(r: EmptyResponse) -> Seq<char> {
    "{\"error\":"@ + (spec_dec(r.error as int) + "}"@)
}

/// The spelling with an explicit null payload.
pub open spec fn spec_empty_response_null_json(r: EmptyResponse) -> Seq<char> {
    "{\"data\":null,\"error\":"@ + (spec_dec(r.error as int) + "}"@)
}

/// The rest of `s` from `i` on reads `N}` for the returned number `N`.
fn parse_error_tail(s: &str, i: usize) -> (r: Option<usize>)
    requires
        i <= s@.len(),
    ensures
        match r {
            Some(n) => s@.subrange(i as int, s@.len() as int) == spec_dec(n as int) + "}"@,
            None => forall|n: usize|
                s@.subrange(i as int, s@.len() as int) != spec_dec(n as int) + "}"@,
        },
{
    proof {
        reveal_strlit("}");
    }
    let ghost tail = s@.subrange(i as int, s@.len() as int);
    match parse_number(s, i) {
        None => {
            proof {
                assert forall|n: usize| tail != spec_dec(n as int) + "}"@ by {
                    if tail == spec_dec(n as int) + "}"@ {
                        crate::text::lemma_dec_shape(n as int);
                        let ln = spec_dec(n as int).len() as int;
                        assert(tail.len() == ln + 1);
                        assert(s@.subrange(i as int, i + ln) =~= spec_dec(n as int)) by {
                            assert forall|t: int|
                                0 <= t < ln implies s@.subrange(i as int, i + ln)[t] == spec_dec(
                                n as int,
                            )[t] by {
                                assert(s@.subrange(i as int, i + ln)[t] == s@[i + t]);
                                assert(tail[t] == s@[i + t]);
                                assert(tail[t] == spec_dec(n as int)[t]);
                            }
                        }
                        assert(s@[i + ln] == tail[ln]);
                        assert(tail[ln] == '}');
                        assert(!spec_is_digit('}'));
                        assert(spec_number_at(s@, i as int, n as int));
                        assert(false);
                    }
                }
            }
            None
        },
        Some((n, j)) => {
            proof {
                assert(spec_number_at(s@, i as int, n as int));
            }
            match expect_lit(s, j, "}") {
                None => {
                    proof {
                        assert forall|m: usize| tail != spec_dec(m as int) + "}"@ by {
                            if tail == spec_dec(m as int) + "}"@ {
                                crate::text::lemma_dec_shape(m as int);
                                let lm = spec_dec(m as int).len() as int;
                                assert(tail.len() == lm + 1);
                                assert(s@.subrange(i as int, i + lm) =~= spec_dec(m as int)) by {
                                    assert forall|t: int| 0 <= t < lm implies s@.subrange(
                                        i as int,
                                        i + lm,
                                    )[t] == spec_dec(m as int)[t] by {
                                        assert(s@.subrange(i as int, i + lm)[t] == s@[i + t]);
                                        assert(tail[t] == s@[i + t]);
                                        assert(tail[t] == spec_dec(m as int)[t]);
                                    }
                                }
                                assert(s@[i + lm] == tail[lm]);
                                assert(tail[lm] == '}');
                                assert(!spec_is_digit('}'));
                                assert(spec_number_at(s@, i as int, m as int));
                                lemma_number_at_unique(s@, i as int, n as int, m as int);
                                assert(j == i + lm);
                                assert(spec_lit_at(s@, j as int, "}"@)) by {
                                    assert(s@.subrange(j as int, j as int + 1) =~= "}"@);
                                }
                                assert(false);
                            }
                        }
                    }
                    None
                },
                Some(j2) => {
                    let slen = s.unicode_len();
                    if j2 == slen {
                        proof {
                            assert(tail =~= spec_dec(n as int) + "}"@) by {
                                assert(tail.len() == j2 - i);
                                assert(s@.subrange(i as int, j as int) == spec_dec(n as int));
                                assert(s@.subrange(j as int, j2 as int) == "}"@);
                                assert forall|t: int| 0 <= t < tail.len() implies tail[t] == (
                                spec_dec(n as int) + "}"@)[t] by {
                                    assert(tail[t] == s@[i + t]);
                                    if t < j - i {
                                        assert(s@.subrange(i as int, j as int)[t] == s@[i + t]);
                                    } else {
                                        assert(s@.subrange(j as int, j2 as int)[t - (j - i)]
                                            == s@[i + t]);
                                    }
                                }
                            }
                        }
                        Some(n)
                    } else {
                        proof {
                            assert forall|m: usize| tail != spec_dec(m as int) + "}"@ by {
                                if tail == spec_dec(m as int) + "}"@ {
                                    crate::text::lemma_dec_shape(m as int);
                                    let lm = spec_dec(m as int).len() as int;
                                    assert(tail.len() == lm + 1);
                                    assert(s@.subrange(i as int, i + lm) =~= spec_dec(m as int))
                                        by {
                                        assert forall|t: int| 0 <= t < lm implies s@.subrange(
                                            i as int,
                                            i + lm,
                                        )[t] == spec_dec(m as int)[t] by {
                                            assert(s@.subrange(i as int, i + lm)[t] == s@[i + t]);
                                            assert(tail[t] == s@[i + t]);
                                            assert(tail[t] == spec_dec(m as int)[t]);
                                        }
                                    }
                                    assert(s@[i + lm] == tail[lm]);
                                    assert(tail[lm] == '}');
                                    assert(!spec_is_digit('}'));
                                    assert(spec_number_at(s@, i as int, m as int));
                                    lemma_number_at_unique(s@, i as int, n as int, m as int);
                                    assert(s@.len() == i + lm + 1);
                                    assert(false);
                                }
                            }
                        }
                        None
                    }
                },
            }
        },
    }
}

/// Parses a set operation's response body.  Succeeds exactly on the two
/// envelope spellings, returning the envelope they spell; any other text is
/// a malformed response.
pub fn parse_empty_response(s: &str) -> (r: Result<EmptyResponse, Error>)
    ensures
        match r {
            Ok(v) => s@ == spec_empty_response_json(v) || s@ == spec_empty_response_null_json(v),
            Err(e) => ({
                &&& e == Error::MalformedResponse
                &&& forall|v: EmptyResponse|
                    s@ != spec_empty_response_json(v) && s@ != spec_empty_response_null_json(v)
            }),
        },
{
    proof {
        reveal_strlit("{\"error\":");
        reveal_strlit("{\"data\":null,\"error\":");
    }
    let plain = expect_lit(s, 0, "{\"error\":");
    match plain {
        Some(j) => {
            match parse_error_tail(s, j) {
                Some(n) => {
                    let env = EmptyResponse { error: n };
                    proof {
                        lemma_prefix_tail_join(s@, "{\"error\":"@, spec_dec(n as int) + "}"@);
                        assert(s@ =~= spec_empty_response_json(env));
                    }
                    Ok(env)
                },
                None => {
                    proof {
                        assert forall|v: EmptyResponse|
                            s@ != spec_empty_response_json(v) && s@
                                != spec_empty_response_null_json(v) by {
                            if s@ == spec_empty_response_json(v) {
                                lemma_concat_prefix(s@, "{\"error\":"@, spec_dec(v.error as int)
                                    + "}"@);
                                assert(s@.subrange(j as int, s@.len() as int) == spec_dec(
                                    v.error as int,
                                ) + "}"@);
                                assert(false);
                            }
                            if s@ == spec_empty_response_null_json(v) {
                                lemma_concat_prefix(
                                    s@,
                                    "{\"data\":null,\"error\":"@,
                                    spec_dec(v.error as int) + "}"@,
                                );
                                assert(s@.subrange(
                                    0,
                                    "{\"data\":null,\"error\":"@.len() as int,
                                )[2] == s@[2]);
                                assert(s@.subrange(0, "{\"error\":"@.len() as int)[2] == s@[2]);
                                assert(false);
                            }
                        }
                    }
                    Err(Error::MalformedResponse)
                },
            }
        },
        None => {
            match expect_lit(s, 0, "{\"data\":null,\"error\":") {
                Some(j) => {
                    match parse_error_tail(s, j) {
                        Some(n) => {
                            let env = EmptyResponse { error: n };
                            proof {
                                lemma_prefix_tail_join(
                                    s@,
                                    "{\"data\":null,\"error\":"@,
                                    spec_dec(n as int) + "}"@,
                                );
                                assert(s@ =~= spec_empty_response_null_json(env));
                            }
                            Ok(env)
                        },
                        None => {
                            proof {
                                assert forall|v: EmptyResponse|
                                    s@ != spec_empty_response_json(v) && s@
                                        != spec_empty_response_null_json(v) by {
                                    if s@ == spec_empty_response_json(v) {
                                        lemma_concat_prefix(
                                            s@,
                                            "{\"error\":"@,
                                            spec_dec(v.error as int) + "}"@,
                                        );
                                        assert(false);
                                    }
                                    if s@ == spec_empty_response_null_json(v) {
                                        lemma_concat_prefix(
                                            s@,
                                            "{\"data\":null,\"error\":"@,
                                            spec_dec(v.error as int) + "}"@,
                                        );
                                        assert(s@.subrange(j as int, s@.len() as int) == spec_dec(
                                            v.error as int,
                                        ) + "}"@);
                                        assert(false);
                                    }
                                }
                            }
                            Err(Error::MalformedResponse)
                        },
                    }
                },
                None => {
                    proof {
                        assert forall|v: EmptyResponse|
                            s@ != spec_empty_response_json(v) && s@
                                != spec_empty_response_null_json(v) by {
                            if s@ == spec_empty_response_json(v) {
                                lemma_concat_prefix(s@, "{\"error\":"@, spec_dec(v.error as int)
                                    + "}"@);
                                assert(false);
                            }
                            if s@ == spec_empty_response_null_json(v) {
                                lemma_concat_prefix(
                                    s@,
                                    "{\"data\":null,\"error\":"@,
                                    spec_dec(v.error as int) + "}"@,
                                );
                                assert(false);
                            }
                        }
                    }
                    Err(Error::MalformedResponse)
                },
            }
        },
    }
}

/// Where `s` is `head` followed by `rest`, `head` stands at 0 and `rest`
/// fills the remainder.
proof fn lemma_concat_prefix(s: Seq<char>, head: Seq<char>, rest: Seq<char>)
    requires
        s == head + rest,
    ensures
        spec_lit_at(s, 0, head),
        s.subrange(head.len() as int, s.len() as int) == rest,
{
    assert(s.subrange(0, head.len() as int) =~= head) by {
        assert forall|t: int| 0 <= t < head.len() implies s.subrange(0, head.len() as int)[t]
            == head[t] by {
            assert(s[t] == (head + rest)[t]);
        }
    }
    assert(s.subrange(head.len() as int, s.len() as int) =~= rest) by {
        assert forall|t: int| 0 <= t < rest.len() implies s.subrange(
            head.len() as int,
            s.len() as int,
        )[t] == rest[t] by {
            assert(s[head.len() + t] == (head + rest)[head.len() + t]);
        }
    }
}

/// Where `head` stands at 0 of `s` and `rest` fills the remainder, `s` is
/// `head` followed by `rest`.
proof fn lemma_prefix_tail_join(s: Seq<char>, head: Seq<char>, rest: Seq<char>)
    requires
        spec_lit_at(s, 0, head),
        s.subrange(head.len() as int, s.len() as int) == rest,
    ensures
        s == head + rest,
{
    assert(s =~= head + rest) by {
        assert(s.len() == head.len() + rest.len());
        assert forall|t: int| 0 <= t < s.len() implies s[t] == (head + rest)[t] by {
            if t < head.len() {
                assert(s.subrange(0, head.len() as int)[t] == s[t]);
            } else {
                assert(s.subrange(head.len() as int, s.len() as int)[t - head.len()] == s[t]);
            }
        }
    }
}

/// The JSON text of one `switches` entry of an info response, the raw
/// token kept.
pub open spec fn spec_switch_entry_text(e: Switch) -> Seq<char> {
    "{\"switch\":\""@ + (e.switch@ + ("\",\"outlet\":"@ + (spec_dec(e.outlet as int) + "}"@)))
}

/// Two known switch tokens standing at the same place are the same token.
proof fn lemma_switch_token_at_unique(s: Seq<char>, p: int, t1: Seq<char>, t2: Seq<char>)
    requires
        spec_parse_switch_token(t1) is Some,
        spec_parse_switch_token(t2) is Some,
        spec_lit_at(s, p, t1),
        spec_lit_at(s, p, t2),
    ensures
        t1 == t2,
{
    reveal_strlit("on");
    reveal_strlit("off");
    if t1 != t2 {
        assert(s.subrange(p, p + t1.len() as int)[1] == s[p + 1]);
        assert(s.subrange(p, p + t2.len() as int)[1] == s[p + 1]);
        assert(t1[1] == t2[1]);
        assert(false);
    }
}

/// Parses one `switches` entry standing at `i`: `{"switch":"TOK","outlet":N}`
/// with a known token and an outlet that fits `u8`.
fn parse_switch_entry(s: &str, i: usize) -> (r: Option<(Switch, usize)>)
    requires
        i <= s@.len(),
    ensures
        match r {
            Some((e, j)) => ({
                &&& i <= j <= s@.len()
                &&& j == i + spec_switch_entry_text(e).len()
                &&& spec_lit_at(s@, i as int, spec_switch_entry_text(e))
                &&& spec_parse_switch_token(e.switch@) is Some
            }),
            None => forall|e: Switch|
                spec_parse_switch_token(e.switch@) is Some ==> !spec_lit_at(
                    s@,
                    i as int,
                    spec_switch_entry_text(e),
                ),
        },
{
    proof {
        reveal_strlit("{\"switch\":\"");
        reveal_strlit("\",\"outlet\":");
        reveal_strlit("on\",\"outlet\":");
        reveal_strlit("off\",\"outlet\":");
        reveal_strlit("on");
        reveal_strlit("off");
        reveal_strlit("}");
        assert("on\",\"outlet\":"@ =~= "on"@ + "\",\"outlet\":"@);
        assert("off\",\"outlet\":"@ =~= "off"@ + "\",\"outlet\":"@);
    }
    let j0 = match expect_lit(s, i, "{\"switch\":\"") {
        Some(j) => j,
        None => {
            proof {
                assert forall|e: Switch|
                    spec_parse_switch_token(e.switch@) is Some implies !spec_lit_at(
                    s@,
                    i as int,
                    spec_switch_entry_text(e),
                ) by {
                    if spec_lit_at(s@, i as int, spec_switch_entry_text(e)) {
                        lemma_lit_at_split(
                            s@,
                            i as int,
                            "{\"switch\":\""@,
                            e.switch@ + ("\",\"outlet\":"@ + (spec_dec(e.outlet as int) + "}"@)),
                        );
                        assert(false);
                    }
                }
            }
            return None;
        },
    };
    let (tok, j1): (&'static str, usize) = match expect_lit(s, j0, "on\",\"outlet\":") {
        Some(j) => ("on", j),
        None => match expect_lit(s, j0, "off\",\"outlet\":") {
            Some(j) => ("off", j),
            None => {
                proof {
                    assert forall|e: Switch|
                        spec_parse_switch_token(e.switch@) is Some implies !spec_lit_at(
                        s@,
                        i as int,
                        spec_switch_entry_text(e),
                    ) by {
                        if spec_lit_at(s@, i as int, spec_switch_entry_text(e)) {
                            lemma_lit_at_split(
                                s@,
                                i as int,
                                "{\"switch\":\""@,
                                e.switch@ + ("\",\"outlet\":"@ + (spec_dec(e.outlet as int)
                                    + "}"@)),
                            );
                            lemma_lit_at_split(
                                s@,
                                j0 as int,
                                e.switch@,
                                "\",\"outlet\":"@ + (spec_dec(e.outlet as int) + "}"@),
                            );
                            lemma_lit_at_split(
                                s@,
                                j0 + e.switch@.len(),
                                "\",\"outlet\":"@,
                                spec_dec(e.outlet as int) + "}"@,
                            );
                            lemma_lit_at_join(
                                s@,
                                j0 as int,
                                e.switch@,
                                "\",\"outlet\":"@,
                            );
                            assert(false);
                        }
                    }
                }
                return None;
            },
        },
    };
    proof {
        lemma_lit_at_split(s@, j0 as int, tok@, "\",\"outlet\":"@);
    }
    let (n, j2) = match parse_number(s, j1) {
        Some(p) => p,
        None => {
            proof {
                assert forall|e: Switch|
                    spec_parse_switch_token(e.switch@) is Some implies !spec_lit_at(
                    s@,
                    i as int,
                    spec_switch_entry_text(e),
                ) by {
                    if spec_lit_at(s@, i as int, spec_switch_entry_text(e)) {
                        lemma_lit_at_split(
                            s@,
                            i as int,
                            "{\"switch\":\""@,
                            e.switch@ + ("\",\"outlet\":"@ + (spec_dec(e.outlet as int) + "}"@)),
                        );
                        lemma_lit_at_split(
                            s@,
                            j0 as int,
                            e.switch@,
                            "\",\"outlet\":"@ + (spec_dec(e.outlet as int) + "}"@),
                        );
                        lemma_switch_token_at_unique(s@, j0 as int, e.switch@, tok@);
                        lemma_lit_at_split(
                            s@,
                            j0 + e.switch@.len(),
                            "\",\"outlet\":"@,
                            spec_dec(e.outlet as int) + "}"@,
                        );
                        lemma_lit_at_split(
                            s@,
                            j1 as int,
                            spec_dec(e.outlet as int),
                            "}"@,
                        );
                        assert(s@.subrange(j1 as int, j1 + 1 + spec_dec(e.outlet as int).len())[
                            spec_dec(e.outlet as int).len() as int] == s@[j1
                            + spec_dec(e.outlet as int).len()]);
                        assert(s@[j1 + spec_dec(e.outlet as int).len()] == '}');
                        assert(spec_number_at(s@, j1 as int, e.outlet as int));
                        assert(false);
                    }
                }
            }
            return None;
        },
    };
    proof {
        assert(spec_number_at(s@, j1 as int, n as int));
    }
    if n > 255 {
        proof {
            assert forall|e: Switch|
                spec_parse_switch_token(e.switch@) is Some implies !spec_lit_at(
                s@,
                i as int,
                spec_switch_entry_text(e),
            ) by {
                if spec_lit_at(s@, i as int, spec_switch_entry_text(e)) {
                    lemma_lit_at_split(
                        s@,
                        i as int,
                        "{\"switch\":\""@,
                        e.switch@ + ("\",\"outlet\":"@ + (spec_dec(e.outlet as int) + "}"@)),
                    );
                    lemma_lit_at_split(
                        s@,
                        j0 as int,
                        e.switch@,
                        "\",\"outlet\":"@ + (spec_dec(e.outlet as int) + "}"@),
                    );
                    lemma_switch_token_at_unique(s@, j0 as int, e.switch@, tok@);
                    lemma_lit_at_split(
                        s@,
                        j0 + e.switch@.len(),
                        "\",\"outlet\":"@,
                        spec_dec(e.outlet as int) + "}"@,
                    );
                    lemma_lit_at_split(s@, j1 as int, spec_dec(e.outlet as int), "}"@);
                    assert(s@.subrange(j1 as int, j1 + 1 + spec_dec(e.outlet as int).len())[
                        spec_dec(e.outlet as int).len() as int] == s@[j1 + spec_dec(
                        e.outlet as int,
                    ).len()]);
                    assert(spec_number_at(s@, j1 as int, e.outlet as int));
                    lemma_number_at_unique(s@, j1 as int, n as int, e.outlet as int);
                    assert(false);
                }
            }
        }
        return None;
    }
    match expect_lit(s, j2, "}") {
        Some(j3) => {
            let entry = Switch { switch: tok.to_owned(), outlet: n as u8 };
            proof {
                lemma_lit_at_join(s@, j1 as int, spec_dec(n as int), "}"@);
                lemma_lit_at_join(
                    s@,
                    j0 + tok@.len(),
                    "\",\"outlet\":"@,
                    spec_dec(n as int) + "}"@,
                );
                lemma_lit_at_join(
                    s@,
                    j0 as int,
                    tok@,
                    "\",\"outlet\":"@ + (spec_dec(n as int) + "}"@),
                );
                lemma_lit_at_join(
                    s@,
                    i as int,
                    "{\"switch\":\""@,
                    tok@ + ("\",\"outlet\":"@ + (spec_dec(n as int) + "}"@)),
                );
            }
            Some((entry, j3))
        },
        None => {
            proof {
                assert forall|e: Switch|
                    spec_parse_switch_token(e.switch@) is Some implies !spec_lit_at(
                    s@,
                    i as int,
                    spec_switch_entry_text(e),
                ) by {
                    if spec_lit_at(s@, i as int, spec_switch_entry_text(e)) {
                        lemma_lit_at_split(
                            s@,
                            i as int,
                            "{\"switch\":\""@,
                            e.switch@ + ("\",\"outlet\":"@ + (spec_dec(e.outlet as int) + "}"@)),
                        );
                        lemma_lit_at_split(
                            s@,
                            j0 as int,
                            e.switch@,
                            "\",\"outlet\":"@ + (spec_dec(e.outlet as int) + "}"@),
                        );
                        lemma_switch_token_at_unique(s@, j0 as int, e.switch@, tok@);
                        lemma_lit_at_split(
                            s@,
                            j0 + e.switch@.len(),
                            "\",\"outlet\":"@,
                            spec_dec(e.outlet as int) + "}"@,
                        );
                        lemma_lit_at_split(s@, j1 as int, spec_dec(e.outlet as int), "}"@);
                        assert(s@.subrange(j1 as int, j1 + 1 + spec_dec(e.outlet as int).len())[
                            spec_dec(e.outlet as int).len() as int] == s@[j1 + spec_dec(
                            e.outlet as int,
                        ).len()]);
                        assert(spec_number_at(s@, j1 as int, e.outlet as int));
                        lemma_number_at_unique(s@, j1 as int, n as int, e.outlet as int);
                        assert(false);
                    }
                }
            }
            None
        },
    }
}

/// The JSON text of one `configure` entry of an info response, the raw
/// token kept.
pub open spec fn spec_startup_entry_text(e: Startup) -> Seq<char> {
    "{\"startup\":\""@ + (e.startup@ + ("\",\"outlet\":"@ + (spec_dec(e.outlet as int) + "}"@)))
}

/// Two known startup tokens standing at the same place are the same token.
proof fn lemma_startup_token_at_unique(s: Seq<char>, p: int, t1: Seq<char>, t2: Seq<char>)
    requires
        spec_parse_startup_token(t1) is Some,
        spec_parse_startup_token(t2) is Some,
        spec_lit_at(s, p, t1),
        spec_lit_at(s, p, t2),
    ensures
        t1 == t2,
{
    reveal_strlit("on");
    reveal_strlit("off");
    reveal_strlit("stay");
    if t1 != t2 {
        assert(s.subrange(p, p + t1.len() as int)[0] == s[p]);
        assert(s.subrange(p, p + t2.len() as int)[0] == s[p]);
        assert(t1[0] == t2[0]);
        assert(s.subrange(p, p + t1.len() as int)[1] == s[p + 1]);
        assert(s.subrange(p, p + t2.len() as int)[1] == s[p + 1]);
        assert(t1[1] == t2[1]);
        assert(false);
    }
}

/// Parses one `configure` entry standing at `i`:
/// `{"startup":"TOK","outlet":N}` with a known token and an outlet that
/// fits `u8`.
fn parse_startup_entry(s: &str, i: usize) -> (r: Option<(Startup, usize)>)
    requires
        i <= s@.len(),
    ensures
        match r {
            Some((e, j)) => ({
                &&& i <= j <= s@.len()
                &&& j == i + spec_startup_entry_text(e).len()
                &&& spec_lit_at(s@, i as int, spec_startup_entry_text(e))
                &&& spec_parse_startup_token(e.startup@) is Some
            }),
            None => forall|e: Startup|
                spec_parse_startup_token(e.startup@) is Some ==> !spec_lit_at(
                    s@,
                    i as int,
                    spec_startup_entry_text(e),
                ),
        },
{
    proof {
        reveal_strlit("{\"startup\":\"");
        reveal_strlit("\",\"outlet\":");
        reveal_strlit("on\",\"outlet\":");
        reveal_strlit("off\",\"outlet\":");
        reveal_strlit("stay\",\"outlet\":");
        reveal_strlit("on");
        reveal_strlit("off");
        reveal_strlit("stay");
        reveal_strlit("}");
        assert("on\",\"outlet\":"@ =~= "on"@ + "\",\"outlet\":"@);
        assert("off\",\"outlet\":"@ =~= "off"@ + "\",\"outlet\":"@);
        assert("stay\",\"outlet\":"@ =~= "stay"@ + "\",\"outlet\":"@);
    }
    let j0 = match expect_lit(s, i, "{\"startup\":\"") {
        Some(j) => j,
        None => {
            proof {
                assert forall|e: Startup|
                    spec_parse_startup_token(e.startup@) is Some implies !spec_lit_at(
                    s@,
                    i as int,
                    spec_startup_entry_text(e),
                ) by {
                    if spec_lit_at(s@, i as int, spec_startup_entry_text(e)) {
                        lemma_lit_at_split(
                            s@,
                            i as int,
                            "{\"startup\":\""@,
                            e.startup@ + ("\",\"outlet\":"@ + (spec_dec(e.outlet as int) + "}"@)),
                        );
                        assert(false);
                    }
                }
            }
            return None;
        },
    };
    let (tok, j1): (&'static str, usize) = match expect_lit(s, j0, "on\",\"outlet\":") {
        Some(j) => ("on", j),
        None => match expect_lit(s, j0, "off\",\"outlet\":") {
            Some(j) => ("off", j),
            None => match expect_lit(s, j0, "stay\",\"outlet\":") {
                Some(j) => ("stay", j),
                None => {
                    proof {
                        assert forall|e: Startup|
                            spec_parse_startup_token(e.startup@) is Some implies !spec_lit_at(
                            s@,
                            i as int,
                            spec_startup_entry_text(e),
                        ) by {
                            if spec_lit_at(s@, i as int, spec_startup_entry_text(e)) {
                                lemma_lit_at_split(
                                    s@,
                                    i as int,
                                    "{\"startup\":\""@,
                                    e.startup@ + ("\",\"outlet\":"@ + (spec_dec(e.outlet as int)
                                        + "}"@)),
                                );
                                lemma_lit_at_split(
                                    s@,
                                    j0 as int,
                                    e.startup@,
                                    "\",\"outlet\":"@ + (spec_dec(e.outlet as int) + "}"@),
                                );
                                lemma_lit_at_split(
                                    s@,
                                    j0 + e.startup@.len(),
                                    "\",\"outlet\":"@,
                                    spec_dec(e.outlet as int) + "}"@,
                                );
                                lemma_lit_at_join(s@, j0 as int, e.startup@, "\",\"outlet\":"@);
                                assert(false);
                            }
                        }
                    }
                    return None;
                },
            },
        },
    };
    proof {
        lemma_lit_at_split(s@, j0 as int, tok@, "\",\"outlet\":"@);
    }
    let (n, j2) = match parse_number(s, j1) {
        Some(p) => p,
        None => {
            proof {
                assert forall|e: Startup|
                    spec_parse_startup_token(e.startup@) is Some implies !spec_lit_at(
                    s@,
                    i as int,
                    spec_startup_entry_text(e),
                ) by {
                    if spec_lit_at(s@, i as int, spec_startup_entry_text(e)) {
                        lemma_lit_at_split(
                            s@,
                            i as int,
                            "{\"startup\":\""@,
                            e.startup@ + ("\",\"outlet\":"@ + (spec_dec(e.outlet as int) + "}"@)),
                        );
                        lemma_lit_at_split(
                            s@,
                            j0 as int,
                            e.startup@,
                            "\",\"outlet\":"@ + (spec_dec(e.outlet as int) + "}"@),
                        );
                        lemma_startup_token_at_unique(s@, j0 as int, e.startup@, tok@);
                        lemma_lit_at_split(
                            s@,
                            j0 + e.startup@.len(),
                            "\",\"outlet\":"@,
                            spec_dec(e.outlet as int) + "}"@,
                        );
                        lemma_lit_at_split(s@, j1 as int, spec_dec(e.outlet as int), "}"@);
                        assert(s@.subrange(j1 as int, j1 + 1 + spec_dec(e.outlet as int).len())[
                            spec_dec(e.outlet as int).len() as int] == s@[j1 + spec_dec(
                            e.outlet as int,
                        ).len()]);
                        assert(s@[j1 + spec_dec(e.outlet as int).len()] == '}');
                        assert(spec_number_at(s@, j1 as int, e.outlet as int));
                        assert(false);
                    }
                }
            }
            return None;
        },
    };
    proof {
        assert(spec_number_at(s@, j1 as int, n as int));
    }
    if n > 255 {
        proof {
            assert forall|e: Startup|
                spec_parse_startup_token(e.startup@) is Some implies !spec_lit_at(
                s@,
                i as int,
                spec_startup_entry_text(e),
            ) by {
                if spec_lit_at(s@, i as int, spec_startup_entry_text(e)) {
                    lemma_lit_at_split(
                        s@,
                        i as int,
                        "{\"startup\":\""@,
                        e.startup@ + ("\",\"outlet\":"@ + (spec_dec(e.outlet as int) + "}"@)),
                    );
                    lemma_lit_at_split(
                        s@,
                        j0 as int,
                        e.startup@,
                        "\",\"outlet\":"@ + (spec_dec(e.outlet as int) + "}"@),
                    );
                    lemma_startup_token_at_unique(s@, j0 as int, e.startup@, tok@);
                    lemma_lit_at_split(
                        s@,
                        j0 + e.startup@.len(),
                        "\",\"outlet\":"@,
                        spec_dec(e.outlet as int) + "}"@,
                    );
                    lemma_lit_at_split(s@, j1 as int, spec_dec(e.outlet as int), "}"@);
                    assert(s@.subrange(j1 as int, j1 + 1 + spec_dec(e.outlet as int).len())[
                        spec_dec(e.outlet as int).len() as int] == s@[j1 + spec_dec(
                        e.outlet as int,
                    ).len()]);
                    assert(spec_number_at(s@, j1 as int, e.outlet as int));
                    lemma_number_at_unique(s@, j1 as int, n as int, e.outlet as int);
                    assert(false);
                }
            }
        }
        return None;
    }
    match expect_lit(s, j2, "}") {
        Some(j3) => {
            let entry = Startup { startup: tok.to_owned(), outlet: n as u8 };
            proof {
                lemma_lit_at_join(s@, j1 as int, spec_dec(n as int), "}"@);
                lemma_lit_at_join(
                    s@,
                    j0 + tok@.len(),
                    "\",\"outlet\":"@,
                    spec_dec(n as int) + "}"@,
                );
                lemma_lit_at_join(
                    s@,
                    j0 as int,
                    tok@,
                    "\",\"outlet\":"@ + (spec_dec(n as int) + "}"@),
                );
                lemma_lit_at_join(
                    s@,
                    i as int,
                    "{\"startup\":\""@,
                    tok@ + ("\",\"outlet\":"@ + (spec_dec(n as int) + "}"@)),
                );
            }
            Some((entry, j3))
        },
        None => {
            proof {
                assert forall|e: Startup|
                    spec_parse_startup_token(e.startup@) is Some implies !spec_lit_at(
                    s@,
                    i as int,
                    spec_startup_entry_text(e),
                ) by {
                    if spec_lit_at(s@, i as int, spec_startup_entry_text(e)) {
                        lemma_lit_at_split(
                            s@,
                            i as int,
                            "{\"startup\":\""@,
                            e.startup@ + ("\",\"outlet\":"@ + (spec_dec(e.outlet as int) + "}"@)),
                        );
                        lemma_lit_at_split(
                            s@,
                            j0 as int,
                            e.startup@,
                            "\",\"outlet\":"@ + (spec_dec(e.outlet as int) + "}"@),
                        );
                        lemma_startup_token_at_unique(s@, j0 as int, e.startup@, tok@);
                        lemma_lit_at_split(
                            s@,
                            j0 + e.startup@.len(),
                            "\",\"outlet\":"@,
                            spec_dec(e.outlet as int) + "}"@,
                        );
                        lemma_lit_at_split(s@, j1 as int, spec_dec(e.outlet as int), "}"@);
                        assert(s@.subrange(j1 as int, j1 + 1 + spec_dec(e.outlet as int).len())[
                            spec_dec(e.outlet as int).len() as int] == s@[j1 + spec_dec(
                            e.outlet as int,
                        ).len()]);
                        assert(spec_number_at(s@, j1 as int, e.outlet as int));
                        lemma_number_at_unique(s@, j1 as int, n as int, e.outlet as int);
                        assert(false);
                    }
                }
            }
            None
        },
    }
}

/// Two entries standing at the same place fill the same range.
proof fn lemma_switch_entry_at_unique(s: Seq<char>, p: int, e1: Switch, e2: Switch)
    requires
        spec_parse_switch_token(e1.switch@) is Some,
        spec_parse_switch_token(e2.switch@) is Some,
        spec_lit_at(s, p, spec_switch_entry_text(e1)),
        spec_lit_at(s, p, spec_switch_entry_text(e2)),
    ensures
        spec_switch_entry_text(e1).len() == spec_switch_entry_text(e2).len(),
        e1.switch@ == e2.switch@,
        e1.outlet == e2.outlet,
{
    reveal_strlit("{\"switch\":\"");
    reveal_strlit("\",\"outlet\":");
    reveal_strlit("}");
    lemma_lit_at_split(
        s,
        p,
        "{\"switch\":\""@,
        e1.switch@ + ("\",\"outlet\":"@ + (spec_dec(e1.outlet as int) + "}"@)),
    );
    lemma_lit_at_split(
        s,
        p,
        "{\"switch\":\""@,
        e2.switch@ + ("\",\"outlet\":"@ + (spec_dec(e2.outlet as int) + "}"@)),
    );
    let q = p + "{\"switch\":\""@.len();
    lemma_lit_at_split(s, q, e1.switch@, "\",\"outlet\":"@ + (spec_dec(e1.outlet as int) + "}"@));
    lemma_lit_at_split(s, q, e2.switch@, "\",\"outlet\":"@ + (spec_dec(e2.outlet as int) + "}"@));
    lemma_switch_token_at_unique(s, q, e1.switch@, e2.switch@);
    let m = q + e1.switch@.len();
    lemma_lit_at_split(s, m, "\",\"outlet\":"@, spec_dec(e1.outlet as int) + "}"@);
    lemma_lit_at_split(s, m, "\",\"outlet\":"@, spec_dec(e2.outlet as int) + "}"@);
    let d = m + "\",\"outlet\":"@.len();
    lemma_lit_at_split(s, d, spec_dec(e1.outlet as int), "}"@);
    lemma_lit_at_split(s, d, spec_dec(e2.outlet as int), "}"@);
    assert(s.subrange(d + spec_dec(e1.outlet as int).len(), d + spec_dec(
        e1.outlet as int,
    ).len() + 1)[0] == s[d + spec_dec(e1.outlet as int).len()]);
    assert(s.subrange(d + spec_dec(e2.outlet as int).len(), d + spec_dec(
        e2.outlet as int,
    ).len() + 1)[0] == s[d + spec_dec(e2.outlet as int).len()]);
    assert(spec_number_at(s, d, e1.outlet as int));
    assert(spec_number_at(s, d, e2.outlet as int));
    lemma_number_at_unique(s, d, e1.outlet as int, e2.outlet as int);
}

/// The text of a `switches` list after its opening bracket: the
/// comma-joined entries and the closing bracket.
pub open spec fn spec_switch_list_rest(es: Seq<Switch>) -> Seq<char>
    decreases es.len(),
{
    if es.len() == 0 {
        "]"@
    } else {
        spec_switch_entry_text(es[0]) + (if es.len() == 1 {
            "]"@
        } else {
            ","@ + spec_switch_list_rest(es.drop_first())
        })
    }
}

/// Every entry of the list carries a known switch token.
pub open spec fn spec_switch_list_wf(es: Seq<Switch>) -> bool {
    forall|k: int| 0 <= k < es.len() ==> spec_parse_switch_token(#[trigger] es[k].switch@) is Some
}

/// Two well-formed lists standing at the same place fill the same range.
proof fn lemma_switch_list_at_unique(s: Seq<char>, p: int, es1: Seq<Switch>, es2: Seq<Switch>)
    requires
        spec_switch_list_wf(es1),
        spec_switch_list_wf(es2),
        spec_lit_at(s, p, spec_switch_list_rest(es1)),
        spec_lit_at(s, p, spec_switch_list_rest(es2)),
    ensures
        spec_switch_list_rest(es1).len() == spec_switch_list_rest(es2).len(),
        es1.len() == es2.len(),
        forall|k: int|
            0 <= k < es1.len() ==> ((#[trigger] es1[k]).switch@ == es2[k].switch@ && es1[k].outlet
                == es2[k].outlet),
    decreases es1.len(),
{
    reveal_strlit("]");
    reveal_strlit(",");
    reveal_strlit("{\"switch\":\"");
    if es1.len() == 0 && es2.len() == 0 {
    } else if es1.len() != 0 && es2.len() != 0 {
        lemma_lit_at_split(
            s,
            p,
            spec_switch_entry_text(es1[0]),
            if es1.len() == 1 {
                "]"@
            } else {
                ","@ + spec_switch_list_rest(es1.drop_first())
            },
        );
        lemma_lit_at_split(
            s,
            p,
            spec_switch_entry_text(es2[0]),
            if es2.len() == 1 {
                "]"@
            } else {
                ","@ + spec_switch_list_rest(es2.drop_first())
            },
        );
        assert(spec_parse_switch_token(es1[0].switch@) is Some);
        assert(spec_parse_switch_token(es2[0].switch@) is Some);
        lemma_switch_entry_at_unique(s, p, es1[0], es2[0]);
        let q = p + spec_switch_entry_text(es1[0]).len();
        if es1.len() == 1 && es2.len() == 1 {
        } else if es1.len() == 1 && es2.len() > 1 {
            lemma_lit_at_split(s, q, ","@, spec_switch_list_rest(es2.drop_first()));
            assert(s.subrange(q, q + 1)[0] == s[q]);
            assert(s.subrange(q, q + 1) == "]"@);
            assert(false);
        } else if es1.len() > 1 && es2.len() == 1 {
            lemma_lit_at_split(s, q, ","@, spec_switch_list_rest(es1.drop_first()));
            assert(s.subrange(q, q + 1)[0] == s[q]);
            assert(s.subrange(q, q + 1) == "]"@);
            assert(false);
        } else {
            lemma_lit_at_split(s, q, ","@, spec_switch_list_rest(es1.drop_first()));
            lemma_lit_at_split(s, q, ","@, spec_switch_list_rest(es2.drop_first()));
            assert(spec_switch_list_wf(es1.drop_first())) by {
                assert forall|k: int| 0 <= k < es1.drop_first().len() implies spec_parse_switch_token(
                    #[trigger] es1.drop_first()[k].switch@,
                ) is Some by {
                    assert(es1.drop_first()[k] == es1[k + 1]);
                }
            }
            assert(spec_switch_list_wf(es2.drop_first())) by {
                assert forall|k: int| 0 <= k < es2.drop_first().len() implies spec_parse_switch_token(
                    #[trigger] es2.drop_first()[k].switch@,
                ) is Some by {
                    assert(es2.drop_first()[k] == es2[k + 1]);
                }
            }
            lemma_switch_list_at_unique(s, q + 1, es1.drop_first(), es2.drop_first());
            assert forall|k: int|
                0 <= k < es1.len() implies ((#[trigger] es1[k]).switch@ == es2[k].switch@
                && es1[k].outlet == es2[k].outlet) by {
                if k > 0 {
                    assert(es1.drop_first()[k - 1] == es1[k]);
                    assert(es2.drop_first()[k - 1] == es2[k]);
                }
            }
        }
    } else {
        let (empty_es, full_es): (Seq<Switch>, Seq<Switch>) = if es1.len() == 0 {
            (es1, es2)
        } else {
            (es2, es1)
        };
        assert(s.subrange(p, p + 1) == "]"@);
        assert(s.subrange(p, p + 1)[0] == s[p]);
        lemma_lit_at_split(
            s,
            p,
            spec_switch_entry_text(full_es[0]),
            if full_es.len() == 1 {
                "]"@
            } else {
                ","@ + spec_switch_list_rest(full_es.drop_first())
            },
        );
        lemma_lit_at_split(
            s,
            p,
            "{\"switch\":\""@,
            full_es[0].switch@ + ("\",\"outlet\":"@ + (spec_dec(full_es[0].outlet as int) + "}"@)),
        );
        assert(s.subrange(p, p + "{\"switch\":\""@.len() as int)[0] == s[p]);
        assert(false);
    }
}

/// Parses a `switches` list from just after its opening bracket through its
/// closing bracket.
fn parse_switch_list_rest(s: &str, i: usize) -> (r: Option<(Vec<Switch>, usize)>)
    requires
        i <= s@.len(),
    ensures
        match r {
            Some((v, j)) => ({
                &&& i <= j <= s@.len()
                &&& j == i + spec_switch_list_rest(v@).len()
                &&& spec_lit_at(s@, i as int, spec_switch_list_rest(v@))
                &&& spec_switch_list_wf(v@)
            }),
            None => forall|es: Seq<Switch>|
                spec_switch_list_wf(es) ==> !spec_lit_at(s@, i as int, spec_switch_list_rest(es)),
        },
    decreases s@.len() - i,
{
    proof {
        reveal_strlit("]");
        reveal_strlit(",");
        reveal_strlit("{\"switch\":\"");
    }
    match expect_lit(s, i, "]") {
        Some(j) => {
            let v: Vec<Switch> = Vec::new();
            proof {
                assert(spec_switch_list_rest(v@) == "]"@);
            }
            Some((v, j))
        },
        None => {
            let (e, j) = match parse_switch_entry(s, i) {
                Some(p) => p,
                None => {
                    proof {
                        assert forall|es: Seq<Switch>|
                            spec_switch_list_wf(es) implies !spec_lit_at(
                            s@,
                            i as int,
                            spec_switch_list_rest(es),
                        ) by {
                            if spec_lit_at(s@, i as int, spec_switch_list_rest(es)) {
                                if es.len() == 0 {
                                    assert(false);
                                } else {
                                    lemma_lit_at_split(
                                        s@,
                                        i as int,
                                        spec_switch_entry_text(es[0]),
                                        if es.len() == 1 {
                                            "]"@
                                        } else {
                                            ","@ + spec_switch_list_rest(es.drop_first())
                                        },
                                    );
                                    assert(spec_parse_switch_token(es[0].switch@) is Some);
                                    assert(false);
                                }
                            }
                        }
                    }
                    return None;
                },
            };
            proof {
                assert(spec_switch_entry_text(e).len() >= 11);
            }
            match expect_lit(s, j, ",") {
                Some(j2) => {
                    match parse_switch_list_rest(s, j2) {
                        Some((v_rest, j3)) => {
                            if v_rest.len() == 0 {
                                proof {
                                    assert(s@.subrange(j2 as int, j2 as int + 1) == "]"@);
                                    assert(s@.subrange(j2 as int, j2 as int + 1)[0] == s@[
                                        j2 as int]);
                                    assert forall|es: Seq<Switch>|
                                        spec_switch_list_wf(es) implies !spec_lit_at(
                                        s@,
                                        i as int,
                                        spec_switch_list_rest(es),
                                    ) by {
                                        if spec_lit_at(s@, i as int, spec_switch_list_rest(es))
                                            && es.len() != 0 {
                                            lemma_lit_at_split(
                                                s@,
                                                i as int,
                                                spec_switch_entry_text(es[0]),
                                                if es.len() == 1 {
                                                    "]"@
                                                } else {
                                                    ","@ + spec_switch_list_rest(es.drop_first())
                                                },
                                            );
                                            assert(spec_parse_switch_token(
                                                es[0].switch@,
                                            ) is Some);
                                            lemma_switch_entry_at_unique(s@, i as int, es[0], e);
                                            if es.len() == 1 {
                                                assert(s@.subrange(j as int, j as int + 1)
                                                    == "]"@);
                                                assert(s@.subrange(j as int, j as int + 1)[0]
                                                    == s@[j as int]);
                                                assert(s@.subrange(j as int, j as int + 1)[0]
                                                    == ']');
                                                assert(s@.subrange(j as int, j2 as int) == ","@);
                                                assert(s@.subrange(j as int, j2 as int)[0] == s@[
                                                    j as int]);
                                                assert(false);
                                            } else {
                                                lemma_lit_at_split(
                                                    s@,
                                                    j as int,
                                                    ","@,
                                                    spec_switch_list_rest(es.drop_first()),
                                                );
                                                lemma_lit_at_split(
                                                    s@,
                                                    j2 as int,
                                                    spec_switch_entry_text(es.drop_first()[0]),
                                                    if es.drop_first().len() == 1 {
                                                        "]"@
                                                    } else {
                                                        ","@ + spec_switch_list_rest(
                                                            es.drop_first().drop_first(),
                                                        )
                                                    },
                                                );
                                                lemma_lit_at_split(
                                                    s@,
                                                    j2 as int,
                                                    "{\"switch\":\""@,
                                                    es.drop_first()[0].switch@ + ("\",\"outlet\":"@
                                                        + (spec_dec(
                                                        es.drop_first()[0].outlet as int,
                                                    ) + "}"@)),
                                                );
                                                assert(s@.subrange(
                                                    j2 as int,
                                                    j2 + "{\"switch\":\""@.len() as int,
                                                )[0] == s@[j2 as int]);
                                                assert(false);
                                            }
                                        }
                                    }
                                }
                                None
                            } else {
                                let mut v = v_rest;
                                v.insert(0, e);
                                proof {
                                    assert(v@.drop_first() =~= v_rest@);
                                    assert(v@[0] == e);
                                    assert(spec_switch_list_rest(v@) == spec_switch_entry_text(e)
                                        + (","@ + spec_switch_list_rest(v_rest@)));
                                    lemma_lit_at_join(
                                        s@,
                                        j as int,
                                        ","@,
                                        spec_switch_list_rest(v_rest@),
                                    );
                                    lemma_lit_at_join(
                                        s@,
                                        i as int,
                                        spec_switch_entry_text(e),
                                        ","@ + spec_switch_list_rest(v_rest@),
                                    );
                                    assert(spec_switch_list_wf(v@)) by {
                                        assert forall|k: int|
                                            0 <= k < v@.len() implies spec_parse_switch_token(
                                            #[trigger] v@[k].switch@,
                                        ) is Some by {
                                            if k > 0 {
                                                assert(v@[k] == v_rest@[k - 1]);
                                            }
                                        }
                                    }
                                }
                                Some((v, j3))
                            }
                        },
                        None => {
                            proof {
                                assert forall|es: Seq<Switch>|
                                    spec_switch_list_wf(es) implies !spec_lit_at(
                                    s@,
                                    i as int,
                                    spec_switch_list_rest(es),
                                ) by {
                                    if spec_lit_at(s@, i as int, spec_switch_list_rest(es))
                                        && es.len() != 0 {
                                        lemma_lit_at_split(
                                            s@,
                                            i as int,
                                            spec_switch_entry_text(es[0]),
                                            if es.len() == 1 {
                                                "]"@
                                            } else {
                                                ","@ + spec_switch_list_rest(es.drop_first())
                                            },
                                        );
                                        assert(spec_parse_switch_token(es[0].switch@) is Some);
                                        lemma_switch_entry_at_unique(s@, i as int, es[0], e);
                                        if es.len() == 1 {
                                            assert(s@.subrange(j as int, j as int + 1) == "]"@);
                                            assert(s@.subrange(j as int, j as int + 1)[0] == s@[
                                                j as int]);
                                            assert(s@.subrange(j as int, j2 as int) == ","@);
                                            assert(s@.subrange(j as int, j2 as int)[0] == s@[
                                                j as int]);
                                            assert(false);
                                        } else {
                                            lemma_lit_at_split(
                                                s@,
                                                j as int,
                                                ","@,
                                                spec_switch_list_rest(es.drop_first()),
                                            );
                                            assert(spec_switch_list_wf(es.drop_first())) by {
                                                assert forall|k: int|
                                                    0 <= k < es.drop_first().len() implies spec_parse_switch_token(
                                                    #[trigger] es.drop_first()[k].switch@,
                                                ) is Some by {
                                                    assert(es.drop_first()[k] == es[k + 1]);
                                                }
                                            }
                                            assert(false);
                                        }
                                    }
                                }
                            }
                            None
                        },
                    }
                },
                None => {
                    match expect_lit(s, j, "]") {
                        Some(j2) => {
                            let mut v: Vec<Switch> = Vec::new();
                            v.push(e);
                            proof {
                                assert(v@ =~= seq![e]);
                                assert(spec_switch_list_rest(v@) == spec_switch_entry_text(e)
                                    + "]"@);
                                lemma_lit_at_join(s@, i as int, spec_switch_entry_text(e), "]"@);
                            }
                            Some((v, j2))
                        },
                        None => {
                            proof {
                                assert forall|es: Seq<Switch>|
                                    spec_switch_list_wf(es) implies !spec_lit_at(
                                    s@,
                                    i as int,
                                    spec_switch_list_rest(es),
                                ) by {
                                    if spec_lit_at(s@, i as int, spec_switch_list_rest(es))
                                        && es.len() != 0 {
                                        lemma_lit_at_split(
                                            s@,
                                            i as int,
                                            spec_switch_entry_text(es[0]),
                                            if es.len() == 1 {
                                                "]"@
                                            } else {
                                                ","@ + spec_switch_list_rest(es.drop_first())
                                            },
                                        );
                                        assert(spec_parse_switch_token(es[0].switch@) is Some);
                                        lemma_switch_entry_at_unique(s@, i as int, es[0], e);
                                        if es.len() == 1 {
                                            assert(false);
                                        } else {
                                            lemma_lit_at_split(
                                                s@,
                                                j as int,
                                                ","@,
                                                spec_switch_list_rest(es.drop_first()),
                                            );
                                            assert(false);
                                        }
                                    }
                                }
                            }
                            None
                        },
                    }
                },
            }
        },
    }
}

/// Two entries standing at the same place fill the same range.
proof fn lemma_startup_entry_at_unique(s: Seq<char>, p: int, e1: Startup, e2: Startup)
    requires
        spec_parse_startup_token(e1.startup@) is Some,
        spec_parse_startup_token(e2.startup@) is Some,
        spec_lit_at(s, p, spec_startup_entry_text(e1)),
        spec_lit_at(s, p, spec_startup_entry_text(e2)),
    ensures
        spec_startup_entry_text(e1).len() == spec_startup_entry_text(e2).len(),
        e1.startup@ == e2.startup@,
        e1.outlet == e2.outlet,
{
    reveal_strlit("{\"startup\":\"");
    reveal_strlit("\",\"outlet\":");
    reveal_strlit("}");
    lemma_lit_at_split(
        s,
        p,
        "{\"startup\":\""@,
        e1.startup@ + ("\",\"outlet\":"@ + (spec_dec(e1.outlet as int) + "}"@)),
    );
    lemma_lit_at_split(
        s,
        p,
        "{\"startup\":\""@,
        e2.startup@ + ("\",\"outlet\":"@ + (spec_dec(e2.outlet as int) + "}"@)),
    );
    let q = p + "{\"startup\":\""@.len();
    lemma_lit_at_split(s, q, e1.startup@, "\",\"outlet\":"@ + (spec_dec(e1.outlet as int) + "}"@));
    lemma_lit_at_split(s, q, e2.startup@, "\",\"outlet\":"@ + (spec_dec(e2.outlet as int) + "}"@));
    lemma_startup_token_at_unique(s, q, e1.startup@, e2.startup@);
    let m = q + e1.startup@.len();
    lemma_lit_at_split(s, m, "\",\"outlet\":"@, spec_dec(e1.outlet as int) + "}"@);
    lemma_lit_at_split(s, m, "\",\"outlet\":"@, spec_dec(e2.outlet as int) + "}"@);
    let d = m + "\",\"outlet\":"@.len();
    lemma_lit_at_split(s, d, spec_dec(e1.outlet as int), "}"@);
    lemma_lit_at_split(s, d, spec_dec(e2.outlet as int), "}"@);
    assert(s.subrange(d + spec_dec(e1.outlet as int).len(), d + spec_dec(
        e1.outlet as int,
    ).len() + 1)[0] == s[d + spec_dec(e1.outlet as int).len()]);
    assert(s.subrange(d + spec_dec(e2.outlet as int).len(), d + spec_dec(
        e2.outlet as int,
    ).len() + 1)[0] == s[d + spec_dec(e2.outlet as int).len()]);
    assert(spec_number_at(s, d, e1.outlet as int));
    assert(spec_number_at(s, d, e2.outlet as int));
    lemma_number_at_unique(s, d, e1.outlet as int, e2.outlet as int);
}

/// The text of a `configure` list after its opening bracket: the
/// comma-joined entries and the closing bracket.
pub open spec fn spec_startup_list_rest(es: Seq<Startup>) -> Seq<char>
    decreases es.len(),
{
    if es.len() == 0 {
        "]"@
    } else {
        spec_startup_entry_text(es[0]) + (if es.len() == 1 {
            "]"@
        } else {
            ","@ + spec_startup_list_rest(es.drop_first())
        })
    }
}

/// Every entry of the list carries a known startup token.
pub open spec fn spec_startup_list_wf(es: Seq<Startup>) -> bool {
    forall|k: int| 0 <= k < es.len() ==> spec_parse_startup_token(#[trigger] es[k].startup@) is Some
}

/// Two well-formed lists standing at the same place fill the same range.
proof fn lemma_startup_list_at_unique(s: Seq<char>, p: int, es1: Seq<Startup>, es2: Seq<Startup>)
    requires
        spec_startup_list_wf(es1),
        spec_startup_list_wf(es2),
        spec_lit_at(s, p, spec_startup_list_rest(es1)),
        spec_lit_at(s, p, spec_startup_list_rest(es2)),
    ensures
        spec_startup_list_rest(es1).len() == spec_startup_list_rest(es2).len(),
        es1.len() == es2.len(),
        forall|k: int|
            0 <= k < es1.len() ==> ((#[trigger] es1[k]).startup@ == es2[k].startup@
                && es1[k].outlet == es2[k].outlet),
    decreases es1.len(),
{
    reveal_strlit("]");
    reveal_strlit(",");
    reveal_strlit("{\"startup\":\"");
    if es1.len() == 0 && es2.len() == 0 {
    } else if es1.len() != 0 && es2.len() != 0 {
        lemma_lit_at_split(
            s,
            p,
            spec_startup_entry_text(es1[0]),
            if es1.len() == 1 {
                "]"@
            } else {
                ","@ + spec_startup_list_rest(es1.drop_first())
            },
        );
        lemma_lit_at_split(
            s,
            p,
            spec_startup_entry_text(es2[0]),
            if es2.len() == 1 {
                "]"@
            } else {
                ","@ + spec_startup_list_rest(es2.drop_first())
            },
        );
        assert(spec_parse_startup_token(es1[0].startup@) is Some);
        assert(spec_parse_startup_token(es2[0].startup@) is Some);
        lemma_startup_entry_at_unique(s, p, es1[0], es2[0]);
        let q = p + spec_startup_entry_text(es1[0]).len();
        if es1.len() == 1 && es2.len() == 1 {
        } else if es1.len() == 1 && es2.len() > 1 {
            lemma_lit_at_split(s, q, ","@, spec_startup_list_rest(es2.drop_first()));
            assert(s.subrange(q, q + 1)[0] == s[q]);
            assert(s.subrange(q, q + 1) == "]"@);
            assert(false);
        } else if es1.len() > 1 && es2.len() == 1 {
            lemma_lit_at_split(s, q, ","@, spec_startup_list_rest(es1.drop_first()));
            assert(s.subrange(q, q + 1)[0] == s[q]);
            assert(s.subrange(q, q + 1) == "]"@);
            assert(false);
        } else {
            lemma_lit_at_split(s, q, ","@, spec_startup_list_rest(es1.drop_first()));
            lemma_lit_at_split(s, q, ","@, spec_startup_list_rest(es2.drop_first()));
            assert(spec_startup_list_wf(es1.drop_first())) by {
                assert forall|k: int| 0 <= k < es1.drop_first().len() implies spec_parse_startup_token(
                    #[trigger] es1.drop_first()[k].startup@,
                ) is Some by {
                    assert(es1.drop_first()[k] == es1[k + 1]);
                }
            }
            assert(spec_startup_list_wf(es2.drop_first())) by {
                assert forall|k: int| 0 <= k < es2.drop_first().len() implies spec_parse_startup_token(
                    #[trigger] es2.drop_first()[k].startup@,
                ) is Some by {
                    assert(es2.drop_first()[k] == es2[k + 1]);
                }
            }
            lemma_startup_list_at_unique(s, q + 1, es1.drop_first(), es2.drop_first());
            assert forall|k: int|
                0 <= k < es1.len() implies ((#[trigger] es1[k]).startup@ == es2[k].startup@
                && es1[k].outlet == es2[k].outlet) by {
                if k > 0 {
                    assert(es1.drop_first()[k - 1] == es1[k]);
                    assert(es2.drop_first()[k - 1] == es2[k]);
                }
            }
        }
    } else {
        let (empty_es, full_es): (Seq<Startup>, Seq<Startup>) = if es1.len() == 0 {
            (es1, es2)
        } else {
            (es2, es1)
        };
        assert(s.subrange(p, p + 1) == "]"@);
        assert(s.subrange(p, p + 1)[0] == s[p]);
        lemma_lit_at_split(
            s,
            p,
            spec_startup_entry_text(full_es[0]),
            if full_es.len() == 1 {
                "]"@
            } else {
                ","@ + spec_startup_list_rest(full_es.drop_first())
            },
        );
        lemma_lit_at_split(
            s,
            p,
            "{\"startup\":\""@,
            full_es[0].startup@ + ("\",\"outlet\":"@ + (spec_dec(full_es[0].outlet as int) + "}"@)),
        );
        assert(s.subrange(p, p + "{\"startup\":\""@.len() as int)[0] == s[p]);
        assert(false);
    }
}

/// Parses a `configure` list from just after its opening bracket through its
/// closing bracket.
fn parse_startup_list_rest(s: &str, i: usize) -> (r: Option<(Vec<Startup>, usize)>)
    requires
        i <= s@.len(),
    ensures
        match r {
            Some((v, j)) => ({
                &&& i <= j <= s@.len()
                &&& j == i + spec_startup_list_rest(v@).len()
                &&& spec_lit_at(s@, i as int, spec_startup_list_rest(v@))
                &&& spec_startup_list_wf(v@)
            }),
            None => forall|es: Seq<Startup>|
                spec_startup_list_wf(es) ==> !spec_lit_at(s@, i as int, spec_startup_list_rest(es)),
        },
    decreases s@.len() - i,
{
    proof {
        reveal_strlit("]");
        reveal_strlit(",");
        reveal_strlit("{\"startup\":\"");
    }
    match expect_lit(s, i, "]") {
        Some(j) => {
            let v: Vec<Startup> = Vec::new();
            proof {
                assert(spec_startup_list_rest(v@) == "]"@);
            }
            Some((v, j))
        },
        None => {
            let (e, j) = match parse_startup_entry(s, i) {
                Some(p) => p,
                None => {
                    proof {
                        assert forall|es: Seq<Startup>|
                            spec_startup_list_wf(es) implies !spec_lit_at(
                            s@,
                            i as int,
                            spec_startup_list_rest(es),
                        ) by {
                            if spec_lit_at(s@, i as int, spec_startup_list_rest(es)) {
                                if es.len() == 0 {
                                    assert(false);
                                } else {
                                    lemma_lit_at_split(
                                        s@,
                                        i as int,
                                        spec_startup_entry_text(es[0]),
                                        if es.len() == 1 {
                                            "]"@
                                        } else {
                                            ","@ + spec_startup_list_rest(es.drop_first())
                                        },
                                    );
                                    assert(spec_parse_startup_token(es[0].startup@) is Some);
                                    assert(false);
                                }
                            }
                        }
                    }
                    return None;
                },
            };
            proof {
                assert(spec_startup_entry_text(e).len() >= 11);
            }
            match expect_lit(s, j, ",") {
                Some(j2) => {
                    match parse_startup_list_rest(s, j2) {
                        Some((v_rest, j3)) => {
                            if v_rest.len() == 0 {
                                proof {
                                    assert(s@.subrange(j2 as int, j2 as int + 1) == "]"@);
                                    assert(s@.subrange(j2 as int, j2 as int + 1)[0] == s@[
                                        j2 as int]);
                                    assert forall|es: Seq<Startup>|
                                        spec_startup_list_wf(es) implies !spec_lit_at(
                                        s@,
                                        i as int,
                                        spec_startup_list_rest(es),
                                    ) by {
                                        if spec_lit_at(s@, i as int, spec_startup_list_rest(es))
                                            && es.len() != 0 {
                                            lemma_lit_at_split(
                                                s@,
                                                i as int,
                                                spec_startup_entry_text(es[0]),
                                                if es.len() == 1 {
                                                    "]"@
                                                } else {
                                                    ","@ + spec_startup_list_rest(es.drop_first())
                                                },
                                            );
                                            assert(spec_parse_startup_token(
                                                es[0].startup@,
                                            ) is Some);
                                            lemma_startup_entry_at_unique(s@, i as int, es[0], e);
                                            if es.len() == 1 {
                                                assert(s@.subrange(j as int, j as int + 1)
                                                    == "]"@);
                                                assert(s@.subrange(j as int, j as int + 1)[0]
                                                    == s@[j as int]);
                                                assert(s@.subrange(j as int, j as int + 1)[0]
                                                    == ']');
                                                assert(s@.subrange(j as int, j2 as int) == ","@);
                                                assert(s@.subrange(j as int, j2 as int)[0] == s@[
                                                    j as int]);
                                                assert(false);
                                            } else {
                                                lemma_lit_at_split(
                                                    s@,
                                                    j as int,
                                                    ","@,
                                                    spec_startup_list_rest(es.drop_first()),
                                                );
                                                lemma_lit_at_split(
                                                    s@,
                                                    j2 as int,
                                                    spec_startup_entry_text(es.drop_first()[0]),
                                                    if es.drop_first().len() == 1 {
                                                        "]"@
                                                    } else {
                                                        ","@ + spec_startup_list_rest(
                                                            es.drop_first().drop_first(),
                                                        )
                                                    },
                                                );
                                                lemma_lit_at_split(
                                                    s@,
                                                    j2 as int,
                                                    "{\"startup\":\""@,
                                                    es.drop_first()[0].startup@ + ("\",\"outlet\":"@
                                                        + (spec_dec(
                                                        es.drop_first()[0].outlet as int,
                                                    ) + "}"@)),
                                                );
                                                assert(s@.subrange(
                                                    j2 as int,
                                                    j2 + "{\"startup\":\""@.len() as int,
                                                )[0] == s@[j2 as int]);
                                                assert(false);
                                            }
                                        }
                                    }
                                }
                                None
                            } else {
                                let mut v = v_rest;
                                v.insert(0, e);
                                proof {
                                    assert(v@.drop_first() =~= v_rest@);
                                    assert(v@[0] == e);
                                    assert(spec_startup_list_rest(v@) == spec_startup_entry_text(e)
                                        + (","@ + spec_startup_list_rest(v_rest@)));
                                    lemma_lit_at_join(
                                        s@,
                                        j as int,
                                        ","@,
                                        spec_startup_list_rest(v_rest@),
                                    );
                                    lemma_lit_at_join(
                                        s@,
                                        i as int,
                                        spec_startup_entry_text(e),
                                        ","@ + spec_startup_list_rest(v_rest@),
                                    );
                                    assert(spec_startup_list_wf(v@)) by {
                                        assert forall|k: int|
                                            0 <= k < v@.len() implies spec_parse_startup_token(
                                            #[trigger] v@[k].startup@,
                                        ) is Some by {
                                            if k > 0 {
                                                assert(v@[k] == v_rest@[k - 1]);
                                            }
                                        }
                                    }
                                }
                                Some((v, j3))
                            }
                        },
                        None => {
                            proof {
                                assert forall|es: Seq<Startup>|
                                    spec_startup_list_wf(es) implies !spec_lit_at(
                                    s@,
                                    i as int,
                                    spec_startup_list_rest(es),
                                ) by {
                                    if spec_lit_at(s@, i as int, spec_startup_list_rest(es))
                                        && es.len() != 0 {
                                        lemma_lit_at_split(
                                            s@,
                                            i as int,
                                            spec_startup_entry_text(es[0]),
                                            if es.len() == 1 {
                                                "]"@
                                            } else {
                                                ","@ + spec_startup_list_rest(es.drop_first())
                                            },
                                        );
                                        assert(spec_parse_startup_token(es[0].startup@) is Some);
                                        lemma_startup_entry_at_unique(s@, i as int, es[0], e);
                                        if es.len() == 1 {
                                            assert(s@.subrange(j as int, j as int + 1) == "]"@);
                                            assert(s@.subrange(j as int, j as int + 1)[0] == s@[
                                                j as int]);
                                            assert(s@.subrange(j as int, j2 as int) == ","@);
                                            assert(s@.subrange(j as int, j2 as int)[0] == s@[
                                                j as int]);
                                            assert(false);
                                        } else {
                                            lemma_lit_at_split(
                                                s@,
                                                j as int,
                                                ","@,
                                                spec_startup_list_rest(es.drop_first()),
                                            );
                                            assert(spec_startup_list_wf(es.drop_first())) by {
                                                assert forall|k: int|
                                                    0 <= k < es.drop_first().len() implies spec_parse_startup_token(
                                                    #[trigger] es.drop_first()[k].startup@,
                                                ) is Some by {
                                                    assert(es.drop_first()[k] == es[k + 1]);
                                                }
                                            }
                                            assert(false);
                                        }
                                    }
                                }
                            }
                            None
                        },
                    }
                },
                None => {
                    match expect_lit(s, j, "]") {
                        Some(j2) => {
                            let mut v: Vec<Startup> = Vec::new();
                            v.push(e);
                            proof {
                                assert(v@ =~= seq![e]);
                                assert(spec_startup_list_rest(v@) == spec_startup_entry_text(e)
                                    + "]"@);
                                lemma_lit_at_join(s@, i as int, spec_startup_entry_text(e), "]"@);
                            }
                            Some((v, j2))
                        },
                        None => {
                            proof {
                                assert forall|es: Seq<Startup>|
                                    spec_startup_list_wf(es) implies !spec_lit_at(
                                    s@,
                                    i as int,
                                    spec_startup_list_rest(es),
                                ) by {
                                    if spec_lit_at(s@, i as int, spec_startup_list_rest(es))
                                        && es.len() != 0 {
                                        lemma_lit_at_split(
                                            s@,
                                            i as int,
                                            spec_startup_entry_text(es[0]),
                                            if es.len() == 1 {
                                                "]"@
                                            } else {
                                                ","@ + spec_startup_list_rest(es.drop_first())
                                            },
                                        );
                                        assert(spec_parse_startup_token(es[0].startup@) is Some);
                                        lemma_startup_entry_at_unique(s@, i as int, es[0], e);
                                        if es.len() == 1 {
                                            assert(false);
                                        } else {
                                            lemma_lit_at_split(
                                                s@,
                                                j as int,
                                                ","@,
                                                spec_startup_list_rest(es.drop_first()),
                                            );
                                            assert(false);
                                        }
                                    }
                                }
                            }
                            None
                        },
                    }
                },
            }
        },
    }
}

/// Where the tail of `s` from `p` is `head` followed by `rest`, `head`
/// stands at `p` and `rest` fills what is left.
proof fn lemma_tail_split(s: Seq<char>, p: int, head: Seq<char>, rest: Seq<char>)
    requires
        0 <= p <= s.len(),
        s.subrange(p, s.len() as int) == head + rest,
    ensures
        spec_lit_at(s, p, head),
        s.subrange(p + head.len(), s.len() as int) == rest,
{
    assert(s.subrange(p, s.len() as int).len() == (head + rest).len());
    assert(s.subrange(p, s.len() as int).len() == s.len() - p);
    assert((head + rest).len() == head.len() + rest.len());
    assert(s.len() - p == head.len() + rest.len());
    assert(s.subrange(p, p + head.len() as int) =~= head) by {
        assert forall|t: int| 0 <= t < head.len() implies s.subrange(p, p + head.len() as int)[t]
            == head[t] by {
            assert(s.subrange(p, s.len() as int)[t] == s[p + t]);
            assert(s.subrange(p, p + head.len() as int)[t] == s[p + t]);
            assert((head + rest)[t] == head[t]);
        }
    }
    assert(s.subrange(p + head.len(), s.len() as int) =~= rest) by {
        assert forall|t: int| 0 <= t < rest.len() implies s.subrange(
            p + head.len(),
            s.len() as int,
        )[t] == rest[t] by {
            assert(s.subrange(p, s.len() as int)[head.len() + t] == s[p + head.len() + t]);
            assert(s.subrange(p + head.len(), s.len() as int)[t] == s[p + head.len() + t]);
            assert((head + rest)[head.len() + t] == rest[t]);
        }
    }
}

/// Where `head` stands at `p` of `s` and `rest` fills what is left, the
/// tail of `s` from `p` is `head` followed by `rest`.
proof fn lemma_tail_join(s: Seq<char>, p: int, head: Seq<char>, rest: Seq<char>)
    requires
        spec_lit_at(s, p, head),
        s.subrange(p + head.len(), s.len() as int) == rest,
    ensures
        s.subrange(p, s.len() as int) == head + rest,
{
    assert(s.subrange(p, s.len() as int) =~= head + rest) by {
        assert(s.subrange(p, s.len() as int).len() == head.len() + rest.len());
        assert forall|t: int| 0 <= t < head.len() + rest.len() implies s.subrange(
            p,
            s.len() as int,
        )[t] == (head + rest)[t] by {
            assert(s.subrange(p, s.len() as int)[t] == s[p + t]);
            if t < head.len() {
                assert(s.subrange(p, p + head.len() as int)[t] == s[p + t]);
            } else {
                assert(s.subrange(p + head.len(), s.len() as int)[t - head.len()] == s[p + t]);
            }
        }
    }
}

/// Every token in a success payload is a known one.
pub open spec fn spec_info_json_wf(r: InfoResponse) -> bool {
    match r.data {
        None => true,
        Some(d) => spec_switch_list_wf(d.switches@) && spec_startup_list_wf(d.configure@),
    }
}

/// The minimized JSON text of an info response envelope, in the two shapes
/// the device sends: a success payload with the two per-outlet lists, or a
/// null payload beside the error code.
pub open spec fn spec_info_response_json(r: InfoResponse) -> Seq<char> {
    match r.data {
        None => "{\"data\":null,\"error\":"@ + (spec_dec(r.error as int) + "}"@),
        Some(d) => "{\"data\":{\"switches\":["@ + (spec_switch_list_rest(d.switches@) + (
        ",\"configure\":["@ + (spec_startup_list_rest(d.configure@) + ("},\"error\":"@ + (spec_dec(
            r.error as int,
        ) + "}"@))))),
    }
}

/// Where `s` is the text of a success envelope, each piece of the text
/// stands at its place.
proof fn lemma_info_json_parts(s: Seq<char>, v: InfoResponse)
    requires
        v.data is Some,
        s == spec_info_response_json(v),
    ensures
        ({
            let d = v.data->Some_0;
            let p1 = "{\"data\":{\"switches\":["@.len() as int;
            let p2 = p1 + spec_switch_list_rest(d.switches@).len();
            let p3 = p2 + ",\"configure\":["@.len();
            let p4 = p3 + spec_startup_list_rest(d.configure@).len();
            let p5 = p4 + "},\"error\":"@.len();
            &&& spec_lit_at(s, 0, "{\"data\":{\"switches\":["@)
            &&& spec_lit_at(s, p1, spec_switch_list_rest(d.switches@))
            &&& spec_lit_at(s, p2, ",\"configure\":["@)
            &&& spec_lit_at(s, p3, spec_startup_list_rest(d.configure@))
            &&& spec_lit_at(s, p4, "},\"error\":"@)
            &&& p5 + spec_dec(v.error as int).len() + 1 == s.len()
            &&& s.subrange(p5, s.len() as int) == spec_dec(v.error as int) + "}"@
        }),
{
    reveal_strlit("}");
    let d = v.data->Some_0;
    let p1 = "{\"data\":{\"switches\":["@.len() as int;
    lemma_concat_prefix(
        s,
        "{\"data\":{\"switches\":["@,
        spec_switch_list_rest(d.switches@) + (",\"configure\":["@ + (spec_startup_list_rest(
            d.configure@,
        ) + ("},\"error\":"@ + (spec_dec(v.error as int) + "}"@)))),
    );
    lemma_tail_split(
        s,
        p1,
        spec_switch_list_rest(d.switches@),
        ",\"configure\":["@ + (spec_startup_list_rest(d.configure@) + ("},\"error\":"@ + (spec_dec(
            v.error as int,
        ) + "}"@))),
    );
    let p2 = p1 + spec_switch_list_rest(d.switches@).len();
    lemma_tail_split(
        s,
        p2,
        ",\"configure\":["@,
        spec_startup_list_rest(d.configure@) + ("},\"error\":"@ + (spec_dec(v.error as int)
            + "}"@)),
    );
    let p3 = p2 + ",\"configure\":["@.len();
    lemma_tail_split(
        s,
        p3,
        spec_startup_list_rest(d.configure@),
        "},\"error\":"@ + (spec_dec(v.error as int) + "}"@),
    );
    let p4 = p3 + spec_startup_list_rest(d.configure@).len();
    lemma_tail_split(s, p4, "},\"error\":"@, spec_dec(v.error as int) + "}"@);
    let p5 = p4 + "},\"error\":"@.len();
    assert(s.subrange(p5, s.len() as int).len() == s.len() - p5);
    assert((spec_dec(v.error as int) + "}"@).len() == spec_dec(v.error as int).len() + 1);
}

/// The text of a null-payload envelope never starts like the text of a
/// success envelope.
proof fn lemma_info_null_form_prefix(s: Seq<char>, v: InfoResponse)
    requires
        v.data is None,
        s == spec_info_response_json(v),
    ensures
        !spec_lit_at(s, 0, "{\"data\":{\"switches\":["@),
{
    reveal_strlit("{\"data\":null,\"error\":");
    reveal_strlit("{\"data\":{\"switches\":[");
    lemma_concat_prefix(s, "{\"data\":null,\"error\":"@, spec_dec(v.error as int) + "}"@);
    if spec_lit_at(s, 0, "{\"data\":{\"switches\":["@) {
        assert(s.subrange(0, "{\"data\":null,\"error\":"@.len() as int)[8] == s[8]);
        assert(s.subrange(0, "{\"data\":{\"switches\":["@.len() as int)[8] == s[8]);
        assert(false);
    }
}

/// Aligns a hypothetical success envelope's text with a `switches` list the
/// parser has already read: what follows that list in the text is the
/// configure lead-in and the envelope's own configure list.
proof fn lemma_info_align_configure(s: Seq<char>, v: InfoResponse, switches: Seq<Switch>, j1: int)
    requires
        v.data is Some,
        s == spec_info_response_json(v),
        spec_info_json_wf(v),
        spec_switch_list_wf(switches),
        spec_lit_at(s, "{\"data\":{\"switches\":["@.len() as int, spec_switch_list_rest(switches)),
        j1 == "{\"data\":{\"switches\":["@.len() + spec_switch_list_rest(switches).len(),
    ensures
        spec_lit_at(s, j1, ",\"configure\":["@),
        spec_lit_at(
            s,
            j1 + ",\"configure\":["@.len(),
            spec_startup_list_rest(v.data->Some_0.configure@),
        ),
        spec_startup_list_wf(v.data->Some_0.configure@),
{
    lemma_info_json_parts(s, v);
    lemma_switch_list_at_unique(
        s,
        "{\"data\":{\"switches\":["@.len() as int,
        v.data->Some_0.switches@,
        switches,
    );
}

/// Aligns a hypothetical success envelope's text further, past a
/// `configure` list the parser has already read: what follows is the error
/// lead-in and the envelope's error code, closing the text.
proof fn lemma_info_align_error(
    s: Seq<char>,
    v: InfoResponse,
    switches: Seq<Switch>,
    configure: Seq<Startup>,
    j1: int,
    j3: int,
)
    requires
        v.data is Some,
        s == spec_info_response_json(v),
        spec_info_json_wf(v),
        spec_switch_list_wf(switches),
        spec_startup_list_wf(configure),
        spec_lit_at(s, "{\"data\":{\"switches\":["@.len() as int, spec_switch_list_rest(switches)),
        j1 == "{\"data\":{\"switches\":["@.len() + spec_switch_list_rest(switches).len(),
        spec_lit_at(s, j1 + ",\"configure\":["@.len(), spec_startup_list_rest(configure)),
        j3 == j1 + ",\"configure\":["@.len() + spec_startup_list_rest(configure).len(),
    ensures
        spec_lit_at(s, j3, "},\"error\":"@),
        s.subrange(j3 + "},\"error\":"@.len(), s.len() as int) == spec_dec(v.error as int) + "}"@,
{
    lemma_info_json_parts(s, v);
    lemma_switch_list_at_unique(
        s,
        "{\"data\":{\"switches\":["@.len() as int,
        v.data->Some_0.switches@,
        switches,
    );
    lemma_startup_list_at_unique(
        s,
        j1 + ",\"configure\":["@.len(),
        v.data->Some_0.configure@,
        configure,
    );
}

/// Parses an info response body.  Succeeds exactly on the two envelope
/// shapes the device sends — a success payload with the two per-outlet
/// lists, or a null payload beside the error code — returning the envelope
/// the text spells; any other text is a malformed response.
pub fn parse_info_response(s: &str) -> (r: Result<InfoResponse, Error>)
    ensures
        match r {
            Ok(v) => s@ == spec_info_response_json(v) && spec_info_json_wf(v),
            Err(e) => ({
                &&& e == Error::MalformedResponse
                &&& forall|v: InfoResponse|
                    spec_info_json_wf(v) ==> s@ != spec_info_response_json(v)
            }),
        },
{
    proof {
        reveal_strlit("{\"data\":{\"switches\":[");
        reveal_strlit("{\"data\":null,\"error\":");
        reveal_strlit(",\"configure\":[");
        reveal_strlit("},\"error\":");
    }
    let j0 = match expect_lit(s, 0, "{\"data\":{\"switches\":[") {
        Some(j) => j,
        None => {
            return parse_info_null_form(s);
        },
    };
    let (switches, j1) = match parse_switch_list_rest(s, j0) {
        Some(p) => p,
        None => {
            proof {
                assert forall|v: InfoResponse| spec_info_json_wf(v) implies s@
                    != spec_info_response_json(v) by {
                    if s@ == spec_info_response_json(v) {
                        match v.data {
                            None => {
                                lemma_info_null_form_prefix(s@, v);
                            },
                            Some(d) => {
                                lemma_info_json_parts(s@, v);
                            },
                        }
                    }
                }
            }
            return Err(Error::MalformedResponse);
        },
    };
    let j2 = match expect_lit(s, j1, ",\"configure\":[") {
        Some(j) => j,
        None => {
            proof {
                assert forall|v: InfoResponse| spec_info_json_wf(v) implies s@
                    != spec_info_response_json(v) by {
                    if s@ == spec_info_response_json(v) {
                        match v.data {
                            None => {
                                lemma_info_null_form_prefix(s@, v);
                            },
                            Some(d) => {
                                lemma_info_align_configure(s@, v, switches@, j1 as int);
                            },
                        }
                    }
                }
            }
            return Err(Error::MalformedResponse);
        },
    };
    let (configure, j3) = match parse_startup_list_rest(s, j2) {
        Some(p) => p,
        None => {
            proof {
                assert forall|v: InfoResponse| spec_info_json_wf(v) implies s@
                    != spec_info_response_json(v) by {
                    if s@ == spec_info_response_json(v) {
                        match v.data {
                            None => {
                                lemma_info_null_form_prefix(s@, v);
                            },
                            Some(d) => {
                                lemma_info_align_configure(s@, v, switches@, j1 as int);
                            },
                        }
                    }
                }
            }
            return Err(Error::MalformedResponse);
        },
    };
    let j4 = match expect_lit(s, j3, "},\"error\":") {
        Some(j) => j,
        None => {
            proof {
                assert forall|v: InfoResponse| spec_info_json_wf(v) implies s@
                    != spec_info_response_json(v) by {
                    if s@ == spec_info_response_json(v) {
                        match v.data {
                            None => {
                                lemma_info_null_form_prefix(s@, v);
                            },
                            Some(d) => {
                                lemma_info_align_error(
                                    s@,
                                    v,
                                    switches@,
                                    configure@,
                                    j1 as int,
                                    j3 as int,
                                );
                            },
                        }
                    }
                }
            }
            return Err(Error::MalformedResponse);
        },
    };
    match parse_error_tail(s, j4) {
        Some(n) => {
            let env = InfoResponse { data: Some(InfoData { switches, configure }), error: n };
            proof {
                lemma_tail_join(s@, j3 as int, "},\"error\":"@, spec_dec(n as int) + "}"@);
                lemma_tail_join(
                    s@,
                    j2 as int,
                    spec_startup_list_rest(configure@),
                    "},\"error\":"@ + (spec_dec(n as int) + "}"@),
                );
                lemma_tail_join(
                    s@,
                    j1 as int,
                    ",\"configure\":["@,
                    spec_startup_list_rest(configure@) + ("},\"error\":"@ + (spec_dec(n as int)
                        + "}"@)),
                );
                lemma_tail_join(
                    s@,
                    j0 as int,
                    spec_switch_list_rest(switches@),
                    ",\"configure\":["@ + (spec_startup_list_rest(configure@) + ("},\"error\":"@ + (
                    spec_dec(n as int) + "}"@))),
                );
                lemma_prefix_tail_join(
                    s@,
                    "{\"data\":{\"switches\":["@,
                    spec_switch_list_rest(switches@) + (",\"configure\":["@ + (
                    spec_startup_list_rest(configure@) + ("},\"error\":"@ + (spec_dec(n as int)
                        + "}"@)))),
                );
            }
            Ok(env)
        },
        None => {
            proof {
                assert forall|v: InfoResponse| spec_info_json_wf(v) implies s@
                    != spec_info_response_json(v) by {
                    if s@ == spec_info_response_json(v) {
                        match v.data {
                            None => {
                                lemma_info_null_form_prefix(s@, v);
                            },
                            Some(d) => {
                                lemma_info_align_error(
                                    s@,
                                    v,
                                    switches@,
                                    configure@,
                                    j1 as int,
                                    j3 as int,
                                );
                            },
                        }
                    }
                }
            }
            Err(Error::MalformedResponse)
        },
    }
}

/// Parses an info response body that does not start like a success
/// envelope: accepted exactly when it is a null-payload envelope.
fn parse_info_null_form(s: &str) -> (r: Result<InfoResponse, Error>)
    requires
        !spec_lit_at(s@, 0, "{\"data\":{\"switches\":["@),
    ensures
        match r {
            Ok(v) => s@ == spec_info_response_json(v) && spec_info_json_wf(v),
            Err(e) => ({
                &&& e == Error::MalformedResponse
                &&& forall|v: InfoResponse|
                    spec_info_json_wf(v) ==> s@ != spec_info_response_json(v)
            }),
        },
{
    proof {
        reveal_strlit("{\"data\":null,\"error\":");
    }
    match expect_lit(s, 0, "{\"data\":null,\"error\":") {
        Some(j0) => {
            match parse_error_tail(s, j0) {
                Some(n) => {
                    let env = InfoResponse { data: None, error: n };
                    proof {
                        lemma_prefix_tail_join(
                            s@,
                            "{\"data\":null,\"error\":"@,
                            spec_dec(n as int) + "}"@,
                        );
                    }
                    Ok(env)
                },
                None => {
                    proof {
                        assert forall|v: InfoResponse| spec_info_json_wf(v) implies s@
                            != spec_info_response_json(v) by {
                            if s@ == spec_info_response_json(v) {
                                match v.data {
                                    None => {
                                        lemma_concat_prefix(
                                            s@,
                                            "{\"data\":null,\"error\":"@,
                                            spec_dec(v.error as int) + "}"@,
                                        );
                                        assert(false);
                                    },
                                    Some(d) => {
                                        lemma_info_json_parts(s@, v);
                                    },
                                }
                            }
                        }
                    }
                    Err(Error::MalformedResponse)
                },
            }
        },
        None => {
            proof {
                assert forall|v: InfoResponse| spec_info_json_wf(v) implies s@
                    != spec_info_response_json(v) by {
                    if s@ == spec_info_response_json(v) {
                        match v.data {
                            None => {
                                lemma_concat_prefix(
                                    s@,
                                    "{\"data\":null,\"error\":"@,
                                    spec_dec(v.error as int) + "}"@,
                                );
                                assert(false);
                            },
                            Some(d) => {
                                lemma_info_json_parts(s@, v);
                            },
                        }
                    }
                }
            }
            Err(Error::MalformedResponse)
        },
    }
}

/// The wire text of a well-formed envelope determines the envelope: two
/// well-formed envelopes whose texts are the same report the same error
/// code, the same payload shape, and entry for entry the same tokens and
/// outlets.
pub proof fn lemma_info_response_text_injective(v1: InfoResponse, v2: InfoResponse)
    requires
        spec_info_json_wf(v1),
        spec_info_json_wf(v2),
        spec_info_response_json(v1) == spec_info_response_json(v2),
    ensures
        v1.error == v2.error,
        v1.data is Some <==> v2.data is Some,
        v1.data is Some ==> ({
            let d1 = v1.data->Some_0;
            let d2 = v2.data->Some_0;
            &&& d1.switches@.len() == d2.switches@.len()
            &&& forall|k: int|
                0 <= k < d1.switches@.len() ==> ((#[trigger] d1.switches@[k]).switch@
                    == d2.switches@[k].switch@ && d1.switches@[k].outlet
                    == d2.switches@[k].outlet)
            &&& d1.configure@.len() == d2.configure@.len()
            &&& forall|k: int|
                0 <= k < d1.configure@.len() ==> ((#[trigger] d1.configure@[k]).startup@
                    == d2.configure@[k].startup@ && d1.configure@[k].outlet
                    == d2.configure@[k].outlet)
        }),
{
    reveal_strlit("{\"data\":null,\"error\":");
    reveal_strlit("}");
    let s = spec_info_response_json(v1);
    if v1.data is None && v2.data is None {
        lemma_concat_prefix(s, "{\"data\":null,\"error\":"@, spec_dec(v1.error as int) + "}"@);
        lemma_concat_prefix(s, "{\"data\":null,\"error\":"@, spec_dec(v2.error as int) + "}"@);
        let p = "{\"data\":null,\"error\":"@.len() as int;
        lemma_tail_split(s, p, spec_dec(v1.error as int), "}"@);
        lemma_tail_split(s, p, spec_dec(v2.error as int), "}"@);
        assert(s.subrange(p + spec_dec(v1.error as int).len(), s.len() as int)[0] == s[p
            + spec_dec(v1.error as int).len()]);
        assert(s.subrange(p + spec_dec(v2.error as int).len(), s.len() as int)[0] == s[p
            + spec_dec(v2.error as int).len()]);
        assert(spec_number_at(s, p, v1.error as int));
        assert(spec_number_at(s, p, v2.error as int));
        lemma_number_at_unique(s, p, v1.error as int, v2.error as int);
    } else if v1.data is Some && v2.data is Some {
        let d1 = v1.data->Some_0;
        let d2 = v2.data->Some_0;
        lemma_info_json_parts(s, v1);
        lemma_info_json_parts(s, v2);
        let p1 = "{\"data\":{\"switches\":["@.len() as int;
        lemma_switch_list_at_unique(s, p1, d1.switches@, d2.switches@);
        let p3 = p1 + spec_switch_list_rest(d1.switches@).len() + ",\"configure\":["@.len();
        lemma_startup_list_at_unique(s, p3, d1.configure@, d2.configure@);
        let p5 = p3 + spec_startup_list_rest(d1.configure@).len() + "},\"error\":"@.len();
        lemma_tail_split(s, p5, spec_dec(v1.error as int), "}"@);
        lemma_tail_split(s, p5, spec_dec(v2.error as int), "}"@);
        assert(s.subrange(p5 + spec_dec(v1.error as int).len(), s.len() as int)[0] == s[p5
            + spec_dec(v1.error as int).len()]);
        assert(s.subrange(p5 + spec_dec(v2.error as int).len(), s.len() as int)[0] == s[p5
            + spec_dec(v2.error as int).len()]);
        assert(spec_number_at(s, p5, v1.error as int));
        assert(spec_number_at(s, p5, v2.error as int));
        lemma_number_at_unique(s, p5, v1.error as int, v2.error as int);
    } else if v1.data is None {
        lemma_info_json_parts(s, v2);
        lemma_info_null_form_prefix(s, v1);
        assert(false);
    } else {
        lemma_info_json_parts(s, v1);
        lemma_info_null_form_prefix(s, v2);
        assert(false);
    }
}

} // verus!
