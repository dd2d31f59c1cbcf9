//! What holds of every scan: it partitions the input, always makes
//! progress, prefers the longer entry, keeps ASCII as it is, and reports
//! a scalar value without an entry on its own.
use vstd::prelude::*;
use vstd::utf8::{char_is_scalar, encode_scalar, encode_utf8};
use crate::scanner::{lemma_encode_split, scan, step_bytes, step_len, utf8_len};
use crate::table::{
    code_for, in_table, lemma_ascii_entries, lemma_base_present, lemma_key_of_source,
    lemma_table_sorted, match_len, source_of, KNOWN_SEQUENCES, TABLE_LEN,
};

verus! {

/// The bytes of `b` that the spans of `steps` select, one span after another.
pub open spec fn spans_text(b: Seq<u8>, steps: Seq<(int, int, Result<u8, char>)>) -> Seq<u8>
    decreases steps.len(),
{
    if steps.len() == 0 {
        Seq::empty()
    } else {
        b.subrange(steps[0].0, steps[0].0 + steps[0].1) + spans_text(b, steps.drop_first())
    }
}

proof fn lemma_step_len_bounds(t: Seq<char>)
    requires
        t.len() > 0,
    ensures
        1 <= step_len(t) <= t.len(),
        step_bytes(t) >= 1,
{
    lemma_encode_split(t.take(step_len(t)), 1);
    assert(t.take(step_len(t)).take(1) =~= seq![t[0]]);
    char_is_scalar(t[0]);
    assert(seq![t[0]].drop_first() =~= Seq::<char>::empty());
}

/// Coverage: the spans of a scan's steps are contiguous and non-empty, start
/// where the scan starts and end where the text ends, so that the bytes they
/// select, put together in order, are exactly the text's UTF-8 encoding.
pub proof fn lemma_scan_covers(b: Seq<u8>, t: Seq<char>, pos: int)
    requires
        0 <= pos,
        pos + utf8_len(t) <= b.len(),
        b.subrange(pos, pos + utf8_len(t)) == encode_utf8(t),
    ensures
        (scan(t, pos).len() == 0) == (t.len() == 0),
        scan(t, pos).len() > 0 ==> scan(t, pos)[0].0 == pos,
        scan(t, pos).len() > 0 ==> scan(t, pos).last().0 + scan(t, pos).last().1 == pos
            + utf8_len(t),
        forall|i: int|
            0 <= i < scan(t, pos).len() - 1 ==> #[trigger] scan(t, pos)[i].0 + scan(t, pos)[i].1
                == scan(t, pos)[i + 1].0,
        spans_text(b, scan(t, pos)) == encode_utf8(t),
    decreases t.len(),
{
    let s = scan(t, pos);
    if t.len() == 0 {
        assert(encode_utf8(t) =~= Seq::<u8>::empty());
    } else {
        lemma_step_len_bounds(t);
        let k = step_len(t);
        let l = step_bytes(t);
        let rest = t.skip(k);
        lemma_encode_split(t, k);
        let q = pos + l;
        assert(b.subrange(q, q + utf8_len(rest)) =~= encode_utf8(rest)) by {
            assert(b.subrange(q, q + utf8_len(rest)) =~= b.subrange(pos, pos + utf8_len(t)).subrange(
                l,
                utf8_len(t),
            ));
        }
        lemma_scan_covers(b, rest, q);
        let r = scan(rest, q);
        assert(s.drop_first() =~= r);
        assert(b.subrange(pos, q) =~= encode_utf8(t.take(k))) by {
            assert(b.subrange(pos, q) =~= b.subrange(pos, pos + utf8_len(t)).subrange(0, l));
        }
        if r.len() > 0 {
            assert(s.last() == r.last());
        } else {
            assert(rest.len() == 0);
            assert(encode_utf8(rest) =~= Seq::<u8>::empty());
        }
        assert forall|i: int| 0 <= i < s.len() - 1 implies #[trigger] s[i].0 + s[i].1 == s[i
            + 1].0 by {
            if i > 0 {
                assert(s[i] == r[i - 1]);
                assert(s[i + 1] == r[i]);
            }
        }
    }
}

/// Progress: every step consumes at least one scalar value and at least one
/// byte, so a scan never has more steps than the text has scalar values.
pub proof fn lemma_scan_progress(t: Seq<char>, pos: int)
    ensures
        scan(t, pos).len() <= t.len(),
        forall|i: int| 0 <= i < scan(t, pos).len() ==> #[trigger] scan(t, pos)[i].1 >= 1,
    decreases t.len(),
{
    if t.len() > 0 {
        lemma_step_len_bounds(t);
        let rest = t.skip(step_len(t));
        let q = pos + step_bytes(t);
        lemma_scan_progress(rest, q);
        let s = scan(t, pos);
        assert forall|i: int| 0 <= i < s.len() implies #[trigger] s[i].1 >= 1 by {
            if i > 0 {
                assert(s[i] == scan(rest, q)[i - 1]);
            }
        }
    }
}

/// Longest match: where a base letter and the combining mark after it have an
/// entry together as well as the letter alone, one step covers both scalar
/// values and yields the pair's code.
pub proof fn lemma_scan_prefers_pair(t: Seq<char>, pos: int)
    requires
        t.len() >= 2,
        in_table(seq![t[0]]),
        in_table(seq![t[0], t[1]]),
    ensures
        scan(t, pos)[0] == (pos, utf8_len(seq![t[0], t[1]]), Ok::<u8, char>(code_for(seq![t[0], t[1]]))),
        scan(t, pos).drop_first() == scan(t.skip(2), pos + utf8_len(seq![t[0], t[1]])),
{
    assert(t.take(2) =~= seq![t[0], t[1]]);
    assert(match_len(t) == 2);
    assert(scan(t, pos).drop_first() =~= scan(t.skip(2), pos + utf8_len(seq![t[0], t[1]])));
}

/// Fallback: a scalar value without an entry of its own is reported alone,
/// and the scan resumes with the scalar value right after it.
pub proof fn lemma_scan_unmappable(t: Seq<char>, pos: int)
    requires
        t.len() >= 1,
        !in_table(seq![t[0]]),
    ensures
        scan(t, pos)[0] == (pos, utf8_len(seq![t[0]]), Err::<u8, char>(t[0])),
        scan(t, pos).drop_first() == scan(t.drop_first(), pos + utf8_len(seq![t[0]])),
{
    assert(t.take(1) =~= seq![t[0]]);
    if t.len() >= 2 && in_table(t.take(2)) {
        let j = choose|j: int|
            0 <= j < TABLE_LEN && #[trigger] source_of(KNOWN_SEQUENCES@[j]) == t.take(2);
        lemma_key_of_source(j, t.take(2));
        lemma_base_present(j);
    }
    assert(match_len(t) == 0);
    assert(t.skip(1) =~= t.drop_first());
    assert(scan(t, pos).drop_first() =~= scan(t.drop_first(), pos + utf8_len(seq![t[0]])));
}

/// ASCII fidelity: a text of scalar values below 0x80 scans to one step per
/// scalar value, each one byte long and mapped to the byte of the same value.
pub proof fn lemma_scan_ascii(t: Seq<char>, pos: int)
    requires
        forall|i: int| 0 <= i < t.len() ==> (#[trigger] t[i] as int) < 0x80,
    ensures
        scan(t, pos).len() == t.len(),
        forall|i: int|
            0 <= i < t.len() ==> {
                let s = #[trigger] scan(t, pos)[i];
                &&& s.0 == pos + i
                &&& s.1 == 1
                &&& s.2 is Ok
                &&& s.2->Ok_0 as int == t[i] as int
            },
    decreases t.len(),
{
    if t.len() > 0 {
        let c = t[0];
        lemma_ascii_entries(c);
        lemma_table_sorted();
        assert(t.take(1) =~= seq![c]);
        if t.len() >= 2 && in_table(t.take(2)) {
            let j = choose|j: int|
                0 <= j < TABLE_LEN && #[trigger] source_of(KNOWN_SEQUENCES@[j]) == t.take(2);
            lemma_key_of_source(j, t.take(2));
            assert(t.take(2)[1] == t[1]);
            assert(KNOWN_SEQUENCES@[j].1 as int >= 0x300);
        }
        assert(match_len(t) == 1);
        assert(seq![c].drop_first() =~= Seq::<char>::empty());
        assert(encode_utf8(seq![c]) =~= encode_scalar(c as u32) + encode_utf8(
            Seq::<char>::empty(),
        ));
        let rest = t.skip(1);
        assert forall|i: int| 0 <= i < rest.len() implies (#[trigger] rest[i] as int) < 0x80 by {
            assert(rest[i] == t[i + 1]);
        }
        lemma_scan_ascii(rest, pos + 1);
        let s = scan(t, pos);
        assert forall|i: int| 0 <= i < t.len() implies {
            &&& (#[trigger] s[i]).0 == pos + i
            &&& s[i].1 == 1
            &&& s[i].2 is Ok
            &&& s[i].2->Ok_0 as int == t[i] as int
        } by {
            if i > 0 {
                assert(s[i] == scan(rest, pos + 1)[i - 1]);
                assert(rest[i - 1] == t[i]);
            }
        }
    }
}

} // verus!
