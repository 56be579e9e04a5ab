//! H.264 Annex B byte streams: start codes and the NAL units between them.

use vstd::prelude::*;
use vstd::slice::slice_subrange;

verus! {

/// A start code begins at `i`: `00 00 01`, or `00 00 00 01`, with at least
/// one byte after the first three.
pub open spec fn is_start_code_at(d: Seq<u8>, i: int) -> bool {
    &&& 0 <= i
    &&& i + 3 < d.len()
    &&& d[i] == 0
    &&& d[i + 1] == 0
    &&& (d[i + 2] == 1 || (d[i + 2] == 0 && d[i + 3] == 1))
}

/// The first start code at or after `start`.
pub open spec fn spec_find_start_code(d: Seq<u8>, start: int) -> Option<int>
    decreases d.len() - start,
{
    if start < 0 || start + 3 >= d.len() {
        None
    } else if is_start_code_at(d, start) {
        Some(start)
    } else {
        spec_find_start_code(d, start + 1)
    }
}

/// `spec_find_start_code` finds the first start code at or after `start`,
/// and none means there is none.
pub proof fn lemma_find_start_code(d: Seq<u8>, start: int)
    requires
        start >= 0,
    ensures
        spec_find_start_code(d, start) matches Some(i) ==> start <= i && is_start_code_at(d, i)
            && forall|j: int| start <= j < i ==> !is_start_code_at(d, j),
        spec_find_start_code(d, start) is None ==> forall|j: int|
            start <= j ==> !is_start_code_at(d, j),
    decreases d.len() - start,
{
    if start + 3 < d.len() && !is_start_code_at(d, start) {
        lemma_find_start_code(d, start + 1);
    }
}

/// The length of the start code at `i`: four for `00 00 00 01`, else three.
pub open spec fn spec_start_code_len_at(d: Seq<u8>, i: int) -> int {
    if i + 4 <= d.len() && d[i] == 0 && d[i + 1] == 0 && d[i + 2] == 0 && d[i + 3] == 1 {
        4
    } else {
        3
    }
}

/// `hi` moved down past the zero bytes that end `d[lo..hi]`.
pub open spec fn spec_trim_trailing_zeros(d: Seq<u8>, lo: int, hi: int) -> int
    decreases hi - lo,
{
    if hi > lo && d[hi - 1] == 0 {
        spec_trim_trailing_zeros(d, lo, hi - 1)
    } else {
        hi
    }
}

proof fn lemma_trim_bounds(d: Seq<u8>, lo: int, hi: int)
    requires
        lo <= hi,
    ensures
        lo <= spec_trim_trailing_zeros(d, lo, hi) <= hi,
    decreases hi - lo,
{
    if hi > lo && d[hi - 1] == 0 {
        lemma_trim_bounds(d, lo, hi - 1);
    }
}

/// Where the NAL unit after the start code at `s` ends: at the next start
/// code, or, for the last unit, at the end of the data less its trailing
/// zero bytes.
pub open spec fn spec_nal_end(d: Seq<u8>, nal_start: int, next: int) -> int {
    if next == d.len() {
        spec_trim_trailing_zeros(d, nal_start, next)
    } else {
        next
    }
}

/// The position after which the search resumes once the unit starting at
/// `nal_start` is taken: the next start code, or the end of the data.
pub open spec fn spec_next_start(d: Seq<u8>, nal_start: int) -> int {
    match spec_find_start_code(d, nal_start) {
        Some(n) => n,
        None => d.len() as int,
    }
}

/// The NAL units of `d` found from `cursor` on: the bytes between each start
/// code and the next one (the last one without its trailing zeros), empty
/// units left out.
pub open spec fn spec_nal_units_from(d: Seq<u8>, cursor: int) -> Seq<Seq<u8>>
    decreases d.len() - cursor,
{
    if cursor < 0 {
        Seq::empty()
    } else {
        match spec_find_start_code(d, cursor) {
            None => Seq::empty(),
            Some(s) => {
                proof {
                    lemma_find_start_code(d, cursor);
                    lemma_find_start_code(d, s + spec_start_code_len_at(d, s));
                }
                let nal_start = s + spec_start_code_len_at(d, s);
                let next = spec_next_start(d, nal_start);
                let nal_end = spec_nal_end(d, nal_start, next);
                let here = if nal_start < nal_end {
                    seq![d.subrange(nal_start, nal_end)]
                } else {
                    Seq::empty()
                };
                here + spec_nal_units_from(d, next)
            },
        }
    }
}

/// All NAL units of an Annex B byte stream.
pub open spec fn spec_split_annex_b(d: Seq<u8>) -> Seq<Seq<u8>> {
    spec_nal_units_from(d, 0)
}

pub fn find_start_code(data: &[u8], start: usize) -> (r: Option<usize>)
    ensures
        r matches Some(i) ==> spec_find_start_code(data@, start as int) == Some(i as int),
        r is None ==> spec_find_start_code(data@, start as int) is None,
        r matches Some(i) ==> start <= i && is_start_code_at(data@, i as int) && forall|j: int|
            start <= j < i ==> !is_start_code_at(data@, j),
        r is None ==> forall|j: int| start <= j ==> !is_start_code_at(data@, j),
{
    proof {
        lemma_find_start_code(data@, start as int);
    }
    let mut index = start;
    while index < data.len() && data.len() - index > 3
        invariant
            start <= index,
            spec_find_start_code(data@, start as int) == spec_find_start_code(data@, index as int),
        decreases data.len() - index,
    {
        if data[index] == 0x00 && data[index + 1] == 0x00 {
            if data[index + 2] == 0x01 {
                proof {
                    lemma_find_start_code(data@, start as int);
                }
                return Some(index);
            }
            if data[index + 2] == 0x00 && data[index + 3] == 0x01 {
                proof {
                    lemma_find_start_code(data@, start as int);
                }
                return Some(index);
            }
        }
        index += 1;
    }
    None
}

pub fn start_code_len(data: &[u8]) -> (r: usize)
    ensures
        r == spec_start_code_len_at(data@, 0),
{
    if data.len() >= 4 && data[0] == 0x00 && data[1] == 0x00 && data[2] == 0x00 && data[3]
        == 0x01 {
        4
    } else {
        3
    }
}

pub open spec fn slices_view(units: Seq<&[u8]>) -> Seq<Seq<u8>> {
    units.map_values(|u: &[u8]| u@)
}

/// Splits an Annex B byte stream into its NAL units.
pub fn split_annex_b_nal_units(data: &[u8]) -> (units: Vec<&[u8]>)
    ensures
        slices_view(units@) == spec_split_annex_b(data@),
{
    let mut units: Vec<&[u8]> = Vec::new();
    let mut cursor = 0usize;
    loop
        invariant
            cursor <= data@.len(),
            slices_view(units@) + spec_nal_units_from(data@, cursor as int) == spec_split_annex_b(
                data@,
            ),
        decreases data@.len() - cursor,
    {
        let ghost old_units = slices_view(units@);
        let start = match find_start_code(data, cursor) {
            Some(s) => s,
            None => {
                assert(spec_nal_units_from(data@, cursor as int) == Seq::<Seq<u8>>::empty());
                assert(slices_view(units@) + Seq::<Seq<u8>>::empty() == slices_view(units@));
                return units;
            },
        };
        let tail = slice_subrange(data, start, data.len());
        let nal_start = start + start_code_len(tail);
        assert(spec_start_code_len_at(tail@, 0) == spec_start_code_len_at(data@, start as int));
        let next_start = match find_start_code(data, nal_start) {
            Some(n) => n,
            None => data.len(),
        };
        let mut nal_end = next_start;
        if next_start == data.len() {
            proof {
                lemma_trim_bounds(data@, nal_start as int, next_start as int);
            }
            while nal_end > nal_start && data[nal_end - 1] == 0x00
                invariant
                    nal_start <= nal_end <= next_start == data@.len(),
                    spec_trim_trailing_zeros(data@, nal_start as int, nal_end as int)
                        == spec_trim_trailing_zeros(data@, nal_start as int, next_start as int),
                decreases nal_end,
            {
                nal_end -= 1;
            }
        }
        assert(nal_end == spec_nal_end(data@, nal_start as int, next_start as int));
        if nal_start < nal_end {
            let unit = slice_subrange(data, nal_start, nal_end);
            units.push(unit);
            assert(slices_view(units@) == old_units.push(unit@));
        }
        let ghost here = if nal_start < nal_end {
            seq![data@.subrange(nal_start as int, nal_end as int)]
        } else {
            Seq::<Seq<u8>>::empty()
        };
        assert(spec_nal_units_from(data@, cursor as int) == here + spec_nal_units_from(
            data@,
            next_start as int,
        ));
        assert(slices_view(units@) == old_units + here);
        assert(old_units + (here + spec_nal_units_from(data@, next_start as int)) == (old_units
            + here) + spec_nal_units_from(data@, next_start as int));
        cursor = next_start;
    }
}

/// A stream of one NAL unit: a three-byte (`00 00 01`) or four-byte
/// (`00 00 00 01`) start code followed by a unit that holds no `00 00 00`
/// or `00 00 01` and does not end in a zero byte splits into exactly that
/// unit, whichever start code it carries.
pub proof fn lemma_split_single_unit(long_start_code: bool, unit: Seq<u8>)
    requires
        unit.len() > 0,
        unit[unit.len() - 1] != 0,
        forall|i: int|
            #![trigger unit[i]]
            0 <= i && i + 2 < unit.len() ==> !(unit[i] == 0 && unit[i + 1] == 0 && unit[i + 2] <= 1),
    ensures
        spec_split_annex_b(
            (if long_start_code {
                seq![0u8, 0u8, 0u8, 1u8]
            } else {
                seq![0u8, 0u8, 1u8]
            }) + unit,
        ) == seq![unit],
{
    let code: Seq<u8> = if long_start_code {
        seq![0u8, 0u8, 0u8, 1u8]
    } else {
        seq![0u8, 0u8, 1u8]
    };
    let d = code + unit;
    let k = code.len() as int;
    assert(is_start_code_at(d, 0));
    assert(spec_find_start_code(d, 0) == Some(0int));
    assert(spec_start_code_len_at(d, 0) == k);
    assert forall|j: int| k <= j implies !is_start_code_at(d, j) by {
        if is_start_code_at(d, j) {
            assert(d[j] == unit[j - k]);
            assert(d[j + 1] == unit[j - k + 1]);
            assert(d[j + 2] == unit[j - k + 2]);
        }
    }
    lemma_find_start_code(d, k);
    assert(spec_find_start_code(d, k) is None);
    assert(spec_next_start(d, k) == d.len());
    assert(d[d.len() - 1] == unit[unit.len() - 1]);
    assert(spec_trim_trailing_zeros(d, k, d.len() as int) == d.len());
    assert(spec_nal_units_from(d, d.len() as int) == Seq::<Seq<u8>>::empty());
    assert(d.subrange(k, d.len() as int) =~= unit);
    assert(spec_nal_units_from(d, 0) =~= seq![unit]);
}

/// Every NAL unit found is non-empty and lies inside the data.
pub proof fn lemma_nal_units_nonempty(d: Seq<u8>, cursor: int)
    requires
        cursor >= 0,
    ensures
        forall|i: int|
            0 <= i < spec_nal_units_from(d, cursor).len() ==> 0 < (#[trigger] spec_nal_units_from(
                d,
                cursor,
            )[i]).len() <= d.len(),
    decreases d.len() - cursor,
{
    match spec_find_start_code(d, cursor) {
        None => {},
        Some(s) => {
            lemma_find_start_code(d, cursor);
            let nal_start = s + spec_start_code_len_at(d, s);
            lemma_find_start_code(d, nal_start);
            let next = spec_next_start(d, nal_start);
            lemma_trim_bounds(d, nal_start, next);
            lemma_nal_units_nonempty(d, next);
            let nal_end = spec_nal_end(d, nal_start, next);
            let here = if nal_start < nal_end {
                seq![d.subrange(nal_start, nal_end)]
            } else {
                Seq::<Seq<u8>>::empty()
            };
            let rest = spec_nal_units_from(d, next);
            let units = spec_nal_units_from(d, cursor);
            assert(units == here + rest);
            assert forall|i: int| 0 <= i < units.len() implies 0 < (#[trigger] units[i]).len()
                <= d.len() by {
                if i >= here.len() {
                    assert(units[i] == rest[i - here.len()]);
                }
            }
        },
    }
}

} // verus!
