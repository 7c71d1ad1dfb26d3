//! The environment round trip behind the login-shell capture: one
//! process serializes its variable pairs — minus the sentinel variable
//! that triggered the dump — and the launcher reads them back. The
//! serialized form is whatever the JSON encoder yields; what matters,
//! and what is stated, is that reading back what was written restores
//! the pairs exactly.

use vstd::prelude::*;

use crate::environment::map_of_pairs;
use crate::text::all_digits;
use crate::text::decimal_value;
use crate::text::digit_char;
use crate::text::digit_value;
use crate::text::is_digit;
use crate::text::lemma_decimal_value_prefix;
use crate::text::str_eq;

verus! {

/// What the JSON encoder yields for a list of name/value pairs: a
/// function of the pairs alone.
pub uninterp spec fn env_json(pairs: Seq<(Seq<char>, Seq<char>)>) -> Seq<u8>;

/// Relies on serde_json::to_vec: the JSON bytes for a list of string
/// pairs depend on the pairs alone, and serializing a list of string
/// pairs cannot fail: to_vec errors only when a Serialize impl fails or
/// a map has non-string keys, and writing into a byte vector cannot.
#[verifier::external_body]
fn encode_pairs(pairs: &Vec<(String, String)>) -> (r: Vec<u8>)
    ensures
        r@ == env_json(pairs.deep_view()),
{
    serde_json::to_vec(pairs).unwrap()
}

/// Relies on serde_json::from_slice: parsing JSON back into string
/// pairs; on the encoder's own output it restores the encoded pairs.
#[verifier::external_body]
fn decode_pairs(bytes: &Vec<u8>) -> (r: Option<Vec<(String, String)>>)
    ensures
        r is Some || (forall|ps: Seq<(Seq<char>, Seq<char>)>| bytes@ != env_json(ps)),
        r matches Some(v) ==> (forall|ps: Seq<(Seq<char>, Seq<char>)>|
            bytes@ == env_json(ps) ==> v.deep_view() == ps),
{
    serde_json::from_slice(bytes.as_slice()).ok()
}

/// The pairs with every entry under `key` left out, order kept.
pub open spec fn drop_key(ps: Seq<(Seq<char>, Seq<char>)>, key: Seq<char>) -> Seq<
    (Seq<char>, Seq<char>),
>
    decreases ps.len(),
{
    if ps.len() == 0 {
        ps
    } else {
        drop_key(ps.drop_last(), key) + (if ps.last().0 != key {
            seq![ps.last()]
        } else {
            Seq::empty()
        })
    }
}

/// Serializes the pairs for the dump, the sentinel variable left out.
/// Always yields the payload: on every environment, the dump has bytes
/// to write.
pub fn build_env_payload(pairs: &Vec<(String, String)>, sentinel: &str) -> (r: Vec<u8>)
    ensures
        r@ == env_json(drop_key(pairs.deep_view(), sentinel@)),
{
    let ghost dv = pairs.deep_view();
    let n = pairs.len();
    let mut kept: Vec<(String, String)> = Vec::new();
    let mut t: usize = 0;
    proof {
        assert(dv.take(0) =~= Seq::<(Seq<char>, Seq<char>)>::empty());
        assert(kept.deep_view() =~= drop_key(dv.take(0), sentinel@));
    }
    while t < n
        invariant
            n == pairs.len(),
            t <= n,
            dv == pairs.deep_view(),
            kept.deep_view() == drop_key(dv.take(t as int), sentinel@),
        decreases n - t,
    {
        let ghost before = kept.deep_view();
        if !str_eq(pairs[t].0.as_str(), sentinel) {
            let key = pairs[t].0.clone();
            let value = pairs[t].1.clone();
            kept.push((key, value));
            proof {
                assert(kept.deep_view() =~= before.push(dv[t as int]));
            }
        }
        proof {
            let w = dv.take(t as int + 1);
            assert(w.drop_last() =~= dv.take(t as int));
            assert(w.last() == dv[t as int]);
            assert(kept.deep_view() =~= drop_key(w, sentinel@));
        }
        t += 1;
    }
    proof {
        assert(dv.take(n as int) =~= dv);
    }
    encode_pairs(&kept)
}

/// Reads a dumped environment back into pairs. Bytes that
/// `build_env_payload` produced come back as exactly the pairs it kept.
pub fn read_env_payload(bytes: &Vec<u8>) -> (r: Option<Vec<(String, String)>>)
    ensures
        forall|ps: Seq<(Seq<char>, Seq<char>)>|
            bytes@ == env_json(ps) ==> (r matches Some(v) && v.deep_view() == ps),
{
    decode_pairs(bytes)
}

/// The descriptor the sentinel's value names: the number its text
/// spells — an optional sign, then digits, within the descriptor
/// type's range — or descriptor 1 when the text does not read as one.
pub open spec fn descriptor_of(s: Seq<char>) -> int {
    if all_digits(s) && decimal_value(s) <= i32::MAX {
        decimal_value(s) as int
    } else if s.len() > 1 && s[0] == '+' && all_digits(s.skip(1)) && decimal_value(s.skip(1))
        <= i32::MAX {
        decimal_value(s.skip(1)) as int
    } else if s.len() > 1 && s[0] == '-' && all_digits(s.skip(1)) && decimal_value(s.skip(1))
        <= 2147483648 {
        -(decimal_value(s.skip(1)) as int)
    } else {
        1
    }
}

/// Reads the sentinel's value as a descriptor number, falling back to
/// descriptor 1 when it does not spell one.
pub fn parse_descriptor(text: &str) -> (r: i32)
    ensures
        r as int == descriptor_of(text@),
{
    let n = text.unicode_len();
    if n == 0 {
        return 1;
    }
    let first = text.get_char(0);
    let neg = first == '-';
    let plus = first == '+';
    let start: usize = if neg || plus {
        1
    } else {
        0
    };
    if start == n {
        // a bare sign
        return 1;
    }
    let ghost digits = text@.skip(start as int);
    proof {
        assert(digits.take(0) =~= Seq::<char>::empty());
    }
    let mut acc: u64 = 0;
    let mut i: usize = start;
    while i < n
        invariant
            n == text@.len(),
            start < n,
            start <= i <= n,
            start == 0 || start == 1,
            start == 1 ==> (text@[0] == '-' || text@[0] == '+'),
            start == 0 ==> !(text@[0] == '-' || text@[0] == '+'),
            digits == text@.skip(start as int),
            forall|k: int| start <= k < i ==> digit_char(#[trigger] text@[k]),
            acc == decimal_value(digits.take(i - start)),
            acc <= 2147483648,
        decreases n - i,
    {
        proof {
            assert(digits[i - start] == text@[i as int]);
        }
        let c = text.get_char(i);
        if !is_digit(c) {
            // the digit field is spoiled: no reading of the spec fires
            proof {
                if start == 1 {
                    assert(!digit_char(text@[0]));
                    assert(!all_digits(text@));
                    assert(text@.skip(1)[i - 1] == text@[i as int]);
                    assert(!all_digits(text@.skip(1)));
                } else {
                    assert(text@.skip(0) =~= text@);
                    assert(!all_digits(text@));
                }
            }
            return 1;
        }
        let d: u64 = (c as u32 - 48) as u64;
        let acc2 = acc * 10 + d;
        proof {
            assert(digits.take(i - start + 1).drop_last() =~= digits.take(i - start));
            assert(digits.take(i - start + 1).last() == text@[i as int]);
            assert(d as nat == digit_value(text@[i as int]));
            assert(acc2 == decimal_value(digits.take(i - start + 1)));
        }
        if acc2 > 2147483648 {
            // beyond any descriptor, with or without sign
            proof {
                lemma_decimal_value_prefix(digits, i - start + 1);
                assert(decimal_value(digits) >= acc2 as nat);
                if start == 1 {
                    assert(!digit_char(text@[0]));
                    assert(!all_digits(text@));
                    assert(text@.skip(1) =~= digits);
                } else {
                    assert(text@.skip(0) =~= text@);
                    assert(decimal_value(text@) > i32::MAX);
                }
            }
            return 1;
        }
        acc = acc2;
        i += 1;
    }
    proof {
        assert(digits.take(n - start) =~= digits);
        assert(forall|k: int|
            0 <= k < digits.len() ==> #[trigger] digits[k] == text@[start + k]);
        assert(all_digits(digits));
        if start == 1 {
            assert(!digit_char(text@[0]));
            assert(!all_digits(text@));
            assert(text@.skip(1) =~= digits);
        } else {
            assert(text@.skip(0) =~= text@);
        }
    }
    if neg {
        let v: i64 = -(acc as i64);
        return v as i32;
    }
    if acc > 2147483647 {
        // the one value only the minus sign can reach
        return 1;
    }
    acc as i32
}

/// The dumped pairs never carry the sentinel name, and carry every
/// other name exactly as the full pair list does: present under the
/// same condition, with the value its last writer gave it.
pub proof fn lemma_payload_excludes_sentinel(ps: Seq<(Seq<char>, Seq<char>)>, sentinel: Seq<char>)
    ensures
        !map_of_pairs(drop_key(ps, sentinel)).contains_key(sentinel),
        forall|k: Seq<char>|
            k != sentinel ==> (map_of_pairs(drop_key(ps, sentinel)).contains_key(k)
                <==> #[trigger] map_of_pairs(ps).contains_key(k)),
        forall|k: Seq<char>|
            k != sentinel && #[trigger] map_of_pairs(ps).contains_key(k) ==> map_of_pairs(
                drop_key(ps, sentinel),
            )[k] == map_of_pairs(ps)[k],
    decreases ps.len(),
{
    if ps.len() > 0 {
        let qs = ps.drop_last();
        let tail = ps.last();
        lemma_payload_excludes_sentinel(qs, sentinel);
        let dq = drop_key(qs, sentinel);
        let dp = drop_key(ps, sentinel);
        assert(map_of_pairs(ps) == map_of_pairs(qs).insert(tail.0, tail.1));
        if tail.0 == sentinel {
            assert(dp =~= dq);
            assert forall|k: Seq<char>|
                k != sentinel implies (map_of_pairs(dp).contains_key(k)
                <==> #[trigger] map_of_pairs(ps).contains_key(k)) by {
                assert(map_of_pairs(ps).contains_key(k) == map_of_pairs(qs).contains_key(k));
            }
            assert forall|k: Seq<char>|
                k != sentinel && #[trigger] map_of_pairs(ps).contains_key(k) implies map_of_pairs(
                dp,
            )[k] == map_of_pairs(ps)[k] by {
                assert(map_of_pairs(qs).contains_key(k));
                assert(map_of_pairs(ps)[k] == map_of_pairs(qs)[k]);
            }
        } else {
            assert(dp =~= dq.push(tail));
            assert(dp.drop_last() =~= dq);
            assert(dp.last() == tail);
            assert(map_of_pairs(dp) == map_of_pairs(dq).insert(tail.0, tail.1));
            assert(!map_of_pairs(dp).contains_key(sentinel));
            assert forall|k: Seq<char>|
                k != sentinel implies (map_of_pairs(dp).contains_key(k)
                <==> #[trigger] map_of_pairs(ps).contains_key(k)) by {
                if k != tail.0 {
                    assert(map_of_pairs(dp).contains_key(k) == map_of_pairs(dq).contains_key(k));
                    assert(map_of_pairs(ps).contains_key(k) == map_of_pairs(qs).contains_key(k));
                }
            }
            assert forall|k: Seq<char>|
                k != sentinel && #[trigger] map_of_pairs(ps).contains_key(k) implies map_of_pairs(
                dp,
            )[k] == map_of_pairs(ps)[k] by {
                if k != tail.0 {
                    assert(map_of_pairs(qs).contains_key(k));
                    assert(map_of_pairs(dp)[k] == map_of_pairs(dq)[k]);
                    assert(map_of_pairs(ps)[k] == map_of_pairs(qs)[k]);
                }
            }
        }
    }
}

} // verus!
