//! The textual form of the persisted record: an object with exactly the
//! three fields `total_spent`, `current_start` and `paused_elapsed`, written
//! compactly and in that order, with `null` for an absent start. The writer
//! produces exactly this form; the reader recognizes exactly this form and
//! heals anything else to the fresh record.

use vstd::prelude::*;
use vstd::string::StringExecFns;
use vstd::string::StrSliceExecFns;

use crate::digits::canon_num_at;
use crate::digits::dec_chars;
use crate::digits::is_digit;
use crate::digits::lemma_canon_num_unique;
use crate::digits::lemma_dec_chars_basic;
use crate::digits::parse_num;
use crate::digits::push_dec;
use crate::state::initial;
use crate::state::TimerData;

verus! {

/// The opening of the record, up to the first field's value.
pub open spec fn lit_ts() -> Seq<char> {
    "{\"total_spent\":"@
}

/// The separator before the second field's value.
pub open spec fn lit_cs() -> Seq<char> {
    ",\"current_start\":"@
}

/// The separator before the third field's value.
pub open spec fn lit_pe() -> Seq<char> {
    ",\"paused_elapsed\":"@
}

/// The notation for an absent `current_start`.
pub open spec fn lit_null() -> Seq<char> {
    "null"@
}

/// The closing brace.
pub open spec fn lit_end() -> Seq<char> {
    "}"@
}

/// The notation of the optional second field: digits or `null`.
pub open spec fn cs_chars(c: Option<u64>) -> Seq<char> {
    match c {
        Some(v) => dec_chars(v as nat),
        None => lit_null(),
    }
}

/// The canonical text of a record.
pub open spec fn json_chars(t: TimerData) -> Seq<char> {
    lit_ts() + dec_chars(t.total_spent as nat) + lit_cs() + cs_chars(t.current_start) + lit_pe()
        + dec_chars(t.paused_elapsed as nat) + lit_end()
}

/// Position just past the first field's digits.
pub open spec fn ts_end(t: TimerData) -> int {
    lit_ts().len() + dec_chars(t.total_spent as nat).len() as int
}

/// Position of the second field's value.
pub open spec fn cs_start(t: TimerData) -> int {
    ts_end(t) + lit_cs().len() as int
}

/// Position just past the second field's value.
pub open spec fn cs_end(t: TimerData) -> int {
    cs_start(t) + cs_chars(t.current_start).len() as int
}

/// Position of the third field's digits.
pub open spec fn pe_start(t: TimerData) -> int {
    cs_end(t) + lit_pe().len() as int
}

/// Position just past the third field's digits.
pub open spec fn pe_end(t: TimerData) -> int {
    pe_start(t) + dec_chars(t.paused_elapsed as nat).len() as int
}

/// How the canonical text of `t` decomposes, piece by piece.
pub proof fn lemma_json_parts(t: TimerData, s: Seq<char>)
    requires
        s == json_chars(t),
    ensures
        s.len() == pe_end(t) + 1,
        s.subrange(0, lit_ts().len() as int) == lit_ts(),
        canon_num_at(s, lit_ts().len() as int, t.total_spent, ts_end(t)),
        s.subrange(ts_end(t), cs_start(t)) == lit_cs(),
        t.current_start is None ==> s.subrange(cs_start(t), cs_end(t)) == lit_null(),
        t.current_start is None ==> cs_end(t) == cs_start(t) + 4,
        t.current_start matches Some(c) ==> canon_num_at(s, cs_start(t), c, cs_end(t)),
        s.subrange(cs_end(t), pe_start(t)) == lit_pe(),
        canon_num_at(s, pe_start(t), t.paused_elapsed, pe_end(t)),
        s.subrange(pe_end(t), s.len() as int) == lit_end(),
        s[cs_start(t)] == 'n' || is_digit(s[cs_start(t)]),
        (s[cs_start(t)] == 'n' <==> t.current_start is None),
{
    reveal_strlit("{\"total_spent\":");
    reveal_strlit(",\"current_start\":");
    reveal_strlit(",\"paused_elapsed\":");
    reveal_strlit("null");
    reveal_strlit("}");
    lemma_dec_chars_basic(t.total_spent as nat);
    lemma_dec_chars_basic(t.paused_elapsed as nat);
    if let Some(c) = t.current_start {
        lemma_dec_chars_basic(c as nat);
    }
    let d1 = dec_chars(t.total_spent as nat);
    let dc = cs_chars(t.current_start);
    let d2 = dec_chars(t.paused_elapsed as nat);
    assert(s.subrange(0, lit_ts().len() as int) =~= lit_ts());
    assert(s.subrange(lit_ts().len() as int, ts_end(t)) =~= d1);
    assert(s.subrange(ts_end(t), cs_start(t)) =~= lit_cs());
    assert(s.subrange(cs_start(t), cs_end(t)) =~= dc);
    assert(s.subrange(cs_end(t), pe_start(t)) =~= lit_pe());
    assert(s.subrange(pe_start(t), pe_end(t)) =~= d2);
    assert(s.subrange(pe_end(t), s.len() as int) =~= lit_end());
    assert(s[ts_end(t)] == lit_cs()[0]);
    assert(s[cs_end(t)] == lit_pe()[0]);
    assert(s[pe_end(t)] == lit_end()[0]);
    assert(s[cs_start(t)] == dc[0]);
}

/// Once the reader has matched, at the head of the canonical text of `t`,
/// the opening literal, a first number and the second field's value, those
/// pieces stand exactly where the canonical decomposition of `t` puts them.
proof fn lemma_heads_agree(t: TimerData, s: Seq<char>, ts: u64, q1: int, cs: Option<u64>, q3: int)
    requires
        s == json_chars(t),
        canon_num_at(s, lit_ts().len() as int, ts, q1),
        (match cs {
            None => s.subrange(
                q1 + lit_cs().len(),
                q1 + lit_cs().len() + lit_null().len(),
            ) == lit_null() && q3 == q1 + lit_cs().len() + lit_null().len(),
            Some(c) => canon_num_at(s, q1 + lit_cs().len(), c, q3),
        }),
    ensures
        ts == t.total_spent,
        q1 == ts_end(t),
        cs == t.current_start,
        q3 == cs_end(t),
{
    reveal_strlit("null");
    lemma_json_parts(t, s);
    lemma_canon_num_unique(s, lit_ts().len() as int, ts, q1, t.total_spent, ts_end(t));
    match cs {
        None => {
            assert(s[cs_start(t)] == lit_null()[0]);
            assert(t.current_start is None);
        },
        Some(c) => {
            if t.current_start is None {
                assert(s.subrange(cs_start(t), cs_end(t)) == lit_null());
                assert(s[cs_start(t)] == 'n');
                lemma_dec_chars_basic(c as nat);
                assert(s[cs_start(t)] == dec_chars(c as nat)[0]);
                assert(false);
            }
            lemma_canon_num_unique(s, cs_start(t), c, q3, t.current_start->Some_0, cs_end(t));
        },
    }
}

/// Two records with the same canonical text are the same record: the text
/// `to_json` writes determines the record it was written from, so reading
/// it back restores exactly what was saved.
pub proof fn lemma_json_injective(a: TimerData, b: TimerData)
    requires
        json_chars(a) == json_chars(b),
    ensures
        a == b,
{
    let s = json_chars(a);
    lemma_json_parts(a, s);
    lemma_json_parts(b, s);
    lemma_canon_num_unique(
        s,
        lit_ts().len() as int,
        a.total_spent,
        ts_end(a),
        b.total_spent,
        ts_end(b),
    );
    assert(cs_start(a) == cs_start(b));
    match (a.current_start, b.current_start) {
        (None, None) => {
            assert(cs_end(a) == cs_end(b));
        },
        (Some(ca), Some(cb)) => {
            lemma_canon_num_unique(s, cs_start(a), ca, cs_end(a), cb, cs_end(b));
        },
        _ => {
            assert(false);
        },
    }
    lemma_canon_num_unique(
        s,
        pe_start(a),
        a.paused_elapsed,
        pe_end(a),
        b.paused_elapsed,
        pe_end(b),
    );
}

/// Writes the canonical text of the record.
pub fn to_json(t: &TimerData) -> (r: String)
    ensures
        r@ == json_chars(*t),
{
    let mut out = String::from_str("{\"total_spent\":");
    push_dec(&mut out, t.total_spent);
    out.append(",\"current_start\":");
    match t.current_start {
        Some(c) => push_dec(&mut out, c),
        None => out.append("null"),
    }
    out.append(",\"paused_elapsed\":");
    push_dec(&mut out, t.paused_elapsed);
    out.append("}");
    proof {
        assert(out@ =~= json_chars(*t));
    }
    out
}

/// True exactly when the text `lit` stands in `s` at position `i`.
fn match_lit(s: &str, i: usize, n: usize, lit: &str) -> (r: bool)
    requires
        n == s@.len(),
        i <= n,
    ensures
        r <==> (i + lit@.len() <= s@.len() && s@.subrange(
            i as int,
            i as int + lit@.len() as int,
        ) == lit@),
{
    let m = lit.unicode_len();
    if m > n - i {
        return false;
    }
    let mut k: usize = 0;
    while k < m
        invariant
            n == s@.len(),
            m == lit@.len(),
            i + m <= n,
            k <= m,
            forall|u: int| 0 <= u < k ==> s@[i + u] == lit@[u],
        decreases m - k,
    {
        if s.get_char(i + k) != lit.get_char(k) {
            proof {
                assert(s@.subrange(i as int, i as int + lit@.len() as int)[k as int] != lit@[
                    k as int
                ]);
            }
            return false;
        }
        k += 1;
    }
    proof {
        assert(s@.subrange(i as int, i as int + lit@.len() as int) =~= lit@);
    }
    true
}

/// Reads a record back from its canonical text. Any other text — an empty
/// file, garbage, or a structurally different object — yields the fresh
/// record, so a missing or corrupt store heals itself.
#[verifier::rlimit(30)]
pub fn from_json(s: &str) -> (r: TimerData)
    ensures
        forall|t: TimerData| s@ == json_chars(t) ==> r == t,
        (forall|t: TimerData| s@ != json_chars(t)) ==> r == initial(),
{
    let n = s.unicode_len();
    let lit1 = "{\"total_spent\":";
    let lit2 = ",\"current_start\":";
    let lit3 = ",\"paused_elapsed\":";
    let litn = "null";
    let lite = "}";
    if !match_lit(s, 0, n, lit1) {
        proof {
            assert forall|t: TimerData| s@ != json_chars(t) by {
                if s@ == json_chars(t) {
                    lemma_json_parts(t, s@);
                }
            }
        }
        return TimerData::new();
    }
    let q0 = lit1.unicode_len();
    let (ts, q1) = match parse_num(s, q0, n) {
        Some(p) => p,
        None => {
            proof {
                assert forall|t: TimerData| s@ != json_chars(t) by {
                    if s@ == json_chars(t) {
                        lemma_json_parts(t, s@);
                    }
                }
            }
            return TimerData::new();
        },
    };
    if !match_lit(s, q1, n, lit2) {
        proof {
            assert forall|t: TimerData| s@ != json_chars(t) by {
                if s@ == json_chars(t) {
                    lemma_json_parts(t, s@);
                    lemma_canon_num_unique(
                        s@,
                        q0 as int,
                        ts,
                        q1 as int,
                        t.total_spent,
                        ts_end(t),
                    );
                }
            }
        }
        return TimerData::new();
    }
    let q2 = q1 + lit2.unicode_len();
    let cs: Option<u64>;
    let q3: usize;
    if match_lit(s, q2, n, litn) {
        cs = None;
        q3 = q2 + litn.unicode_len();
    } else {
        match parse_num(s, q2, n) {
            Some(p) => {
                cs = Some(p.0);
                q3 = p.1;
            },
            None => {
                proof {
                    assert forall|t: TimerData| s@ != json_chars(t) by {
                        if s@ == json_chars(t) {
                            lemma_json_parts(t, s@);
                            lemma_canon_num_unique(
                                s@,
                                q0 as int,
                                ts,
                                q1 as int,
                                t.total_spent,
                                ts_end(t),
                            );
                        }
                    }
                }
                return TimerData::new();
            },
        }
    }
    if !match_lit(s, q3, n, lit3) {
        proof {
            assert forall|t: TimerData| s@ != json_chars(t) by {
                if s@ == json_chars(t) {
                    lemma_json_parts(t, s@);
                    lemma_heads_agree(t, s@, ts, q1 as int, cs, q3 as int);
                }
            }
        }
        return TimerData::new();
    }
    let q4 = q3 + lit3.unicode_len();
    let (pe, q5) = match parse_num(s, q4, n) {
        Some(p) => p,
        None => {
            proof {
                assert forall|t: TimerData| s@ != json_chars(t) by {
                    if s@ == json_chars(t) {
                        lemma_json_parts(t, s@);
                        lemma_heads_agree(t, s@, ts, q1 as int, cs, q3 as int);
                    }
                }
            }
            return TimerData::new();
        },
    };
    let tail_ok = match_lit(s, q5, n, lite);
    if !tail_ok || q5 + lite.unicode_len() != n {
        proof {
            assert forall|t: TimerData| s@ != json_chars(t) by {
                if s@ == json_chars(t) {
                    lemma_json_parts(t, s@);
                    lemma_heads_agree(t, s@, ts, q1 as int, cs, q3 as int);
                    lemma_canon_num_unique(
                        s@,
                        q4 as int,
                        pe,
                        q5 as int,
                        t.paused_elapsed,
                        pe_end(t),
                    );
                }
            }
        }
        return TimerData::new();
    }
    let r = TimerData { total_spent: ts, current_start: cs, paused_elapsed: pe };
    proof {
        assert(s@ =~= s@.subrange(0, q0 as int) + s@.subrange(q0 as int, q1 as int) + s@.subrange(
            q1 as int,
            q2 as int,
        ) + s@.subrange(q2 as int, q3 as int) + s@.subrange(q3 as int, q4 as int) + s@.subrange(
            q4 as int,
            q5 as int,
        ) + s@.subrange(q5 as int, n as int));
        assert(s@.subrange(q2 as int, q3 as int) == cs_chars(cs));
        assert(s@ == json_chars(r));
        assert forall|t: TimerData| s@ == json_chars(t) implies r == t by {
            lemma_json_injective(r, t);
        }
    }
    r
}

} // verus!
