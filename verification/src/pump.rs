//! The timestamp label of the pump monitor's payload.

use vstd::prelude::*;
use crate::text::{lex_le, lemma_lex_le_total, lemma_lex_le_transitive, str_le, ascii_chars, ascii_string, all_ascii, decimal, zero_padded, push_decimal, push_zero_padded, lemma_decimal_is_digits, lemma_zero_padded_ascii};

verus! {

/// "up {h}h {mm}m {ss}s" for an uptime of `ms` milliseconds, minutes and
/// seconds two digits wide.
pub open spec fn uptime_text(ms: nat) -> Seq<char> {
    let s = ms / 1000;
    "up "@ + ascii_chars(decimal(s / 3600)) + "h "@ + ascii_chars(zero_padded((s % 3600) / 60, 2))
        + "m "@ + ascii_chars(zero_padded(s % 60, 2)) + "s"@
}

/// The uptime label of a node that has been running for `ms` milliseconds.
pub fn uptime_label(ms: u64) -> (label: String)
    ensures
        label@ == uptime_text(ms as nat),
{
    let s = ms / 1000;
    let mut out: Vec<u8> = Vec::new();
    out.push(117u8);
    out.push(112u8);
    out.push(32u8);
    let ghost a = out@;
    push_decimal(&mut out, s / 3600);
    out.push(104u8);
    out.push(32u8);
    push_zero_padded(&mut out, (s % 3600) / 60, 2);
    out.push(109u8);
    out.push(32u8);
    push_zero_padded(&mut out, s % 60, 2);
    out.push(115u8);
    proof {
        let expect = seq![117u8, 112u8, 32u8] + decimal((s / 3600) as nat) + seq![
            104u8,
            32u8,
        ] + zero_padded(((s % 3600) / 60) as nat, 2) + seq![109u8, 32u8] + zero_padded(
            (s % 60) as nat,
            2,
        ) + seq![115u8];
        assert(out@ =~= expect);
        lemma_decimal_is_digits((s / 3600) as nat);
        lemma_zero_padded_ascii(((s % 3600) / 60) as nat, 2);
        lemma_zero_padded_ascii((s % 60) as nat, 2);
        assert(all_ascii(out@)) by {
            assert forall|i: int| 0 <= i < out@.len() implies #[trigger] out@[i] < 128 by {
                let l0 = 3int;
                let l1 = l0 + decimal((s / 3600) as nat).len();
                let l2 = l1 + 2;
                let l3 = l2 + zero_padded(((s % 3600) / 60) as nat, 2).len();
                let l4 = l3 + 2;
                let l5 = l4 + zero_padded((s % 60) as nat, 2).len();
                if i < l0 {
                } else if i < l1 {
                    assert(out@[i] == decimal((s / 3600) as nat)[i - l0]);
                } else if i < l2 {
                } else if i < l3 {
                    assert(out@[i] == zero_padded(((s % 3600) / 60) as nat, 2)[i - l2]);
                } else if i < l4 {
                } else if i < l5 {
                    assert(out@[i] == zero_padded((s % 60) as nat, 2)[i - l4]);
                }
            }
        }
        reveal_strlit("up ");
        reveal_strlit("h ");
        reveal_strlit("m ");
        reveal_strlit("s");
        assert(ascii_chars(out@) =~= uptime_text(ms as nat));
    }
    ascii_string(out)
}

/// The payload's timestamp: the node's uptime when `ts` is a number of
/// milliseconds, the text itself when `ts` is a string, "unknown" otherwise.
pub fn timestamp_label(ts_ms: Option<u64>, ts_text: Option<String>) -> (label: String)
    ensures
        label@ == (match ts_ms {
            Some(ms) => uptime_text(ms as nat),
            None => match ts_text {
                Some(t) => t@,
                None => "unknown"@,
            },
        }),
{
    match ts_ms {
        Some(ms) => uptime_label(ms),
        None => match ts_text {
            Some(t) => t,
            None => String::from_str("unknown"),
        },
    }
}

/// `order` lists every index of `names` exactly once.
pub open spec fn is_permutation_of(order: Seq<usize>, n: nat) -> bool {
    &&& order.len() == n
    &&& forall|i: int| 0 <= i < order.len() ==> #[trigger] order[i] < n
    &&& forall|i: int, j: int| 0 <= i < j < order.len() ==> order[i] != order[j]
}

/// The names taken in the order `order` are ascending.
pub open spec fn sorted_by_name(names: Seq<String>, order: Seq<usize>) -> bool {
    forall|i: int, j: int|
        0 <= i < j < order.len() ==> lex_le(names[#[trigger] order[i] as int]@, names[#[trigger] order[j] as int]@)
}

/// The order in which pumps are listed and numbered: their keys ascending.
/// Returns the indices of `names` sorted by name.
pub fn sorted_order(names: &[String]) -> (order: Vec<usize>)
    ensures
        is_permutation_of(order@, names@.len()),
        sorted_by_name(names@, order@),
{
    let n = names.len();
    let mut order: Vec<usize> = Vec::new();
    let mut k: usize = 0;
    while k < n
        invariant
            n == names@.len(),
            k <= n,
            is_permutation_of(order@, k as nat),
            sorted_by_name(names@, order@),
        decreases n - k,
    {
        // Insert `k` after every name that sorts before or equal to it.
        let len = order.len();
        let mut p: usize = 0;
        while p < len && str_le(names[order[p]].as_str(), names[k].as_str())
            invariant
                n == names@.len(),
                k < n,
                len == order@.len(),
                p <= len,
                is_permutation_of(order@, k as nat),
                forall|j: int| 0 <= j < p ==> lex_le(names@[#[trigger] order@[j] as int]@, names@[k as int]@),
            decreases len - p,
        {
            p = p + 1;
        }
        let ghost old_o = order@;
        proof {
            if p < len {
                lemma_lex_le_total(names@[old_o[p as int] as int]@, names@[k as int]@);
            }
        }
        order.insert(p, k);
        proof {
            let o = order@;
            assert(o =~= old_o.insert(p as int, k));
            assert(is_permutation_of(o, (k + 1) as nat)) by {
                assert forall|i: int, j: int| 0 <= i < j < o.len() implies o[i] != o[j] by {
                    if i < p && j < p {
                        assert(o[i] == old_o[i] && o[j] == old_o[j]);
                    } else if i < p && j == p {
                        assert(o[i] == old_o[i]);
                    } else if i < p {
                        assert(o[i] == old_o[i] && o[j] == old_o[j - 1]);
                    } else if i == p {
                        assert(o[j] == old_o[j - 1]);
                    } else {
                        assert(o[i] == old_o[i - 1] && o[j] == old_o[j - 1]);
                    }
                }
                assert forall|i: int| 0 <= i < o.len() implies #[trigger] o[i] < k + 1 by {
                    if i < p {
                        assert(o[i] == old_o[i]);
                    } else if i > p {
                        assert(o[i] == old_o[i - 1]);
                    }
                }
            }
            assert(sorted_by_name(names@, o)) by {
                assert forall|i: int, j: int| 0 <= i < j < o.len() implies lex_le(
                    names@[#[trigger] o[i] as int]@,
                    names@[#[trigger] o[j] as int]@,
                ) by {
                    let nk = names@[k as int]@;
                    if j < p {
                        assert(o[i] == old_o[i] && o[j] == old_o[j]);
                    } else if j == p {
                        assert(o[i] == old_o[i]);
                    } else if i < p {
                        assert(o[i] == old_o[i] && o[j] == old_o[j - 1]);
                    } else if i == p {
                        assert(o[j] == old_o[j - 1]);
                        let np = names@[old_o[p as int] as int]@;
                        if j - 1 > p {
                            assert(lex_le(np, names@[old_o[j - 1] as int]@));
                            lemma_lex_le_transitive(nk, np, names@[old_o[j - 1] as int]@);
                        }
                    } else {
                        assert(o[i] == old_o[i - 1] && o[j] == old_o[j - 1]);
                    }
                }
            }
        }
        k = k + 1;
    }
    order
}

} // verus!
