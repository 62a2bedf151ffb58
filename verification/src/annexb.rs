//! HEVC byte streams in Annex B form: NAL units between start codes.

use vstd::prelude::*;
use vstd::slice::slice_subrange;

verus! {

/// The length of the start code that `b` begins with, zero if it begins with none.
pub open spec fn code_len(b: Seq<u8>) -> nat {
    if b.len() >= 4 && b[0] == 0 && b[1] == 0 && b[2] == 0 && b[3] == 1 {
        4
    } else if b.len() >= 3 && b[0] == 0 && b[1] == 0 && b[2] == 1 {
        3
    } else {
        0
    }
}

/// Where the first start code of `b` is, or the length of `b` if there is none.
pub open spec fn next_code(b: Seq<u8>) -> nat
    decreases b.len(),
{
    if b.len() == 0 || code_len(b) > 0 {
        0
    } else {
        1 + next_code(b.skip(1))
    }
}

proof fn lemma_next_code_range(b: Seq<u8>)
    ensures
        next_code(b) <= b.len(),
        next_code(b) < b.len() ==> code_len(b.skip(next_code(b) as int)) > 0,
    decreases b.len(),
{
    if b.len() == 0 || code_len(b) > 0 {
        assert(b.skip(0) =~= b);
    } else {
        let t = b.skip(1);
        lemma_next_code_range(t);
        assert(t.skip(next_code(t) as int) =~= b.skip(1 + next_code(t) as int));
    }
}

/// The NAL units of a stream that stands just behind a start code.
pub open spec fn units_behind(b: Seq<u8>) -> Seq<Seq<u8>>
    decreases b.len(),
    via units_behind_decreases
{
    let e = next_code(b) as int;
    if e >= b.len() {
        seq![b]
    } else {
        seq![b.take(e)] + units_behind(b.skip(e + code_len(b.skip(e))))
    }
}

#[via_fn]
proof fn units_behind_decreases(b: Seq<u8>) {
    lemma_next_code_range(b);
}

/// The NAL units of a stream. What stands before the first start code is none.
pub open spec fn nal_units(b: Seq<u8>) -> Seq<Seq<u8>> {
    let e = next_code(b) as int;
    if e >= b.len() {
        Seq::empty()
    } else {
        units_behind(b.skip(e + code_len(b.skip(e))))
    }
}

/// The type of a NAL unit, from the first byte of its header.
pub open spec fn nal_type(header: u8) -> int {
    (header as int / 2) % 64
}

/// A video, sequence or picture parameter set.
pub open spec fn is_parameter_set(unit: Seq<u8>) -> bool {
    unit.len() > 0 && 32 <= nal_type(unit[0]) <= 34
}

/// A coded slice of a picture.
pub open spec fn is_slice(unit: Seq<u8>) -> bool {
    unit.len() > 0 && nal_type(unit[0]) < 32
}

/// The parameter sets among the units before the first coded slice.
pub open spec fn leading_sets(units: Seq<Seq<u8>>) -> Seq<Seq<u8>>
    decreases units.len(),
{
    if units.len() == 0 || is_slice(units[0]) {
        Seq::empty()
    } else if is_parameter_set(units[0]) {
        seq![units[0]] + leading_sets(units.skip(1))
    } else {
        leading_sets(units.skip(1))
    }
}

/// The four-byte start code.
pub open spec fn long_code() -> Seq<u8> {
    seq![0u8, 0u8, 0u8, 1u8]
}

/// The stream of the units `units`, each behind a four-byte start code.
pub open spec fn stream_of(units: Seq<Seq<u8>>) -> Seq<u8>
    decreases units.len(),
{
    if units.len() == 0 {
        Seq::empty()
    } else {
        long_code() + units[0] + stream_of(units.skip(1))
    }
}

/// The parameter sets of a stream, as a stream.
pub open spec fn parameter_sets(b: Seq<u8>) -> Seq<u8> {
    stream_of(leading_sets(nal_units(b)))
}

/// The length of the start code at `i`, zero if there is none.
fn code_len_at(b: &[u8], i: usize) -> (n: usize)
    requires
        i <= b@.len(),
    ensures
        n == code_len(b@.skip(i as int)),
        i + n <= b@.len(),
{
    let left: usize = b.len() - i;
    if left >= 4 && b[i] == 0 && b[i + 1] == 0 && b[i + 2] == 0 && b[i + 3] == 1 {
        4
    } else if left >= 3 && b[i] == 0 && b[i + 1] == 0 && b[i + 2] == 1 {
        3
    } else {
        0
    }
}

/// The position of the first start code from `i` on, or the length of `b`.
fn next_code_at(b: &[u8], i: usize) -> (e: usize)
    requires
        i <= b@.len(),
    ensures
        i <= e <= b@.len(),
        e == i + next_code(b@.skip(i as int)),
{
    let mut e: usize = i;
    while e < b.len() && code_len_at(b, e) == 0
        invariant
            i <= e <= b@.len(),
            i + next_code(b@.skip(i as int)) == e + next_code(b@.skip(e as int)),
        decreases b@.len() - e,
    {
        assert(b@.skip(e as int).skip(1) =~= b@.skip(e + 1));
        e += 1;
    }
    e
}

/// Collects the parameter sets of an Annex B stream up to the first coded slice.
pub fn extract_parameter_sets(annexb: &[u8]) -> (r: Option<Vec<u8>>)
    ensures
        match r {
            Some(out) => out@ == parameter_sets(annexb@) && out@.len() > 0,
            None => parameter_sets(annexb@).len() == 0,
        },
{
    let n: usize = annexb.len();
    let first = next_code_at(annexb, 0);
    assert(annexb@.skip(0) =~= annexb@);
    if first == n {
        return None;
    }
    let mut out: Vec<u8> = Vec::new();
    let mut start: usize = first + code_len_at(annexb, first);
    proof {
        lemma_next_code_range(annexb@);
        assert(out@ + stream_of(leading_sets(nal_units(annexb@))) =~= stream_of(
            leading_sets(nal_units(annexb@)),
        ));
    }
    loop
        invariant_except_break
            start <= n,
            out@ + stream_of(leading_sets(units_behind(annexb@.skip(start as int))))
                == parameter_sets(annexb@),
        invariant
            n == annexb@.len(),
        ensures
            out@ == parameter_sets(annexb@),
        decreases n - start,
    {
        let ghost rest = annexb@.skip(start as int);
        let ghost units = units_behind(rest);
        let ghost before = out@;
        let e = next_code_at(annexb, start);
        let unit = slice_subrange(annexb, start, e);
        assert(unit@ =~= rest.take(e - start));
        proof {
            lemma_next_code_range(rest);
            if e == n {
                assert(rest.take(e - start) =~= rest);
            }
        }
        assert(units[0] == unit@);
        if unit.len() > 0 {
            let header: u8 = unit[0];
            let ty: u8 = (header >> 1) & 0x3f;
            assert(((header >> 1) & 0x3f) == (header / 2) % 64) by (bit_vector);
            assert(ty == nal_type(header));
            if 32 <= ty && ty <= 34 {
                out.push(0);
                out.push(0);
                out.push(0);
                out.push(1);
                let ghost coded = out@;
                assert(coded =~= before + long_code());
                let mut k: usize = 0;
                while k < unit.len()
                    invariant
                        k <= unit@.len(),
                        out@ == coded + unit@.take(k as int),
                    decreases unit@.len() - k,
                {
                    out.push(unit[k]);
                    k += 1;
                    assert(unit@.take(k as int) =~= unit@.take(k - 1).push(unit@[k - 1]));
                }
                assert(unit@.take(k as int) =~= unit@);
                assert(leading_sets(units) == seq![unit@] + leading_sets(units.skip(1)));
                assert((seq![unit@] + leading_sets(units.skip(1))).skip(1) =~= leading_sets(
                    units.skip(1),
                ));
                assert(out@ + stream_of(leading_sets(units.skip(1))) =~= before + stream_of(
                    leading_sets(units),
                ));
            } else if ty < 32 {
                assert(out@ =~= parameter_sets(annexb@));
                break;
            }
        }
        assert(out@ + stream_of(leading_sets(units.skip(1))) == parameter_sets(annexb@));
        if e == n {
            assert(units.skip(1) =~= Seq::<Seq<u8>>::empty());
            assert(out@ =~= parameter_sets(annexb@));
            break;
        }
        let len = code_len_at(annexb, e);
        proof {
            assert(rest.skip(e - start) =~= annexb@.skip(e as int));
            assert(rest.skip(e - start + len) =~= annexb@.skip(e + len));
            assert(units.skip(1) =~= units_behind(annexb@.skip(e + len)));
        }
        start = e + len;
    }
    if out.len() == 0 {
        None
    } else {
        Some(out)
    }
}

// ---------------------------------------------------------------------------
// Laws
// ---------------------------------------------------------------------------

/// A unit that holds no start code.
spec fn clean(u: Seq<u8>) -> bool {
    forall|j: int| 0 <= j && j + 3 <= u.len() ==> !(#[trigger] u[j] == 0 && u[j + 1] == 0 && u[j + 2] == 1)
}

spec fn all_clean(units: Seq<Seq<u8>>) -> bool {
    forall|i: int| 0 <= i < units.len() ==> clean(#[trigger] units[i])
}

/// What stands before the first start code holds none.
proof fn lemma_take_clean(b: Seq<u8>)
    ensures
        clean(b.take(next_code(b) as int)),
    decreases b.len(),
{
    lemma_next_code_range(b);
    if b.len() > 0 && code_len(b) == 0 {
        let t = b.skip(1);
        lemma_take_clean(t);
        let u = b.take(next_code(b) as int);
        let v = t.take(next_code(t) as int);
        lemma_next_code_range(t);
        assert forall|j: int| 0 <= j && j + 3 <= u.len() implies !(#[trigger] u[j] == 0 && u[j + 1]
            == 0 && u[j + 2] == 1) by {
            if j > 0 {
                assert(v[j - 1] == u[j]);
                assert(v[j - 1 + 1] == u[j + 1]);
                assert(v[j - 1 + 2] == u[j + 2]);
            }
        }
    }
}

proof fn lemma_units_clean(b: Seq<u8>)
    ensures
        all_clean(units_behind(b)),
    decreases b.len(),
{
    lemma_next_code_range(b);
    lemma_take_clean(b);
    let e = next_code(b) as int;
    if e >= b.len() {
        assert(b.take(e) =~= b);
    } else {
        lemma_units_clean(b.skip(e + code_len(b.skip(e))));
    }
}

proof fn lemma_leading_sets_part(units: Seq<Seq<u8>>)
    requires
        all_clean(units),
    ensures
        all_clean(leading_sets(units)),
        forall|i: int| 0 <= i < leading_sets(units).len() ==> is_parameter_set(#[trigger] leading_sets(units)[i]),
    decreases units.len(),
{
    if units.len() > 0 {
        let rest = units.skip(1);
        assert forall|i: int| 0 <= i < rest.len() implies clean(#[trigger] rest[i]) by {
            assert(rest[i] == units[i + 1]);
        }
        lemma_leading_sets_part(rest);
        assert(clean(units[0]));
    }
}

/// A clean unit ends where the next start code stands.
proof fn lemma_next_code_unit(u: Seq<u8>, rest: Seq<u8>)
    requires
        clean(u),
        rest.len() == 0 || (rest.len() >= 4 && rest.take(4) == long_code()),
    ensures
        next_code(u + rest) == u.len(),
    decreases u.len(),
{
    let b = u + rest;
    if u.len() == 0 {
        assert(b =~= rest);
        if rest.len() > 0 {
            assert(rest.take(4)[3] == rest[3] && rest.take(4)[0] == rest[0] && rest.take(4)[1] == rest[1] && rest.take(4)[2] == rest[2]);
        }
    } else {
        if rest.len() > 0 {
            assert(rest[0] == rest.take(4)[0] && rest[1] == rest.take(4)[1] && rest[2] == rest.take(4)[2] && rest[3] == rest.take(4)[3]);
        }
        assert(code_len(b) == 0) by {
            assert(u.len() >= 3 ==> !(u[0] == 0 && u[1] == 0 && u[2] == 1));
            assert(u.len() >= 4 ==> !(u[1] == 0 && u[2] == 0 && u[3] == 1));
        }
        let t = u.skip(1);
        assert(b.skip(1) =~= t + rest);
        assert forall|j: int| 0 <= j && j + 3 <= t.len() implies !(#[trigger] t[j] == 0 && t[j + 1]
            == 0 && t[j + 2] == 1) by {
            assert(u[j + 1] == t[j]);
            assert(u[j + 1 + 1] == t[j + 1]);
            assert(u[j + 1 + 2] == t[j + 2]);
        }
        lemma_next_code_unit(t, rest);
    }
}

/// A stream that begins with a start code.
proof fn lemma_nal_units_coded(inner: Seq<u8>)
    ensures
        nal_units(long_code() + inner) == units_behind(inner),
{
    let b = long_code() + inner;
    assert(code_len(b) == 4);
    assert(b.skip(0) =~= b);
    assert(b.skip(4) =~= inner);
}

/// A clean unit is the first of the units that it stands before.
proof fn lemma_units_behind_first(u: Seq<u8>, inner: Seq<u8>)
    requires
        clean(u),
    ensures
        units_behind(u) == seq![u],
        units_behind(u + (long_code() + inner)) == seq![u] + units_behind(inner),
{
    lemma_next_code_unit(u, Seq::empty());
    assert(u + Seq::<u8>::empty() =~= u);
    let tail = long_code() + inner;
    let b = u + tail;
    assert(tail.take(4) =~= long_code());
    lemma_next_code_unit(u, tail);
    let e = u.len() as int;
    assert(b.take(e) =~= u);
    assert(b.skip(e) =~= tail);
    assert(code_len(tail) == 4);
    assert(b.skip(e + 4) =~= inner);
}

/// Clean units are read back from the stream that they make up.
proof fn lemma_stream_reads_back(units: Seq<Seq<u8>>)
    requires
        all_clean(units),
    ensures
        nal_units(stream_of(units)) == units,
    decreases units.len(),
{
    if units.len() == 0 {
        assert(nal_units(stream_of(units)) =~= units);
    } else {
        let rest = units.skip(1);
        let tail = stream_of(rest);
        assert forall|i: int| 0 <= i < rest.len() implies clean(#[trigger] rest[i]) by {
            assert(rest[i] == units[i + 1]);
        }
        lemma_stream_reads_back(rest);
        let u = units[0];
        assert(clean(u));
        assert(stream_of(units) =~= long_code() + (u + tail));
        lemma_nal_units_coded(u + tail);
        if rest.len() > 0 {
            let inner = rest[0] + stream_of(rest.skip(1));
            assert(tail =~= long_code() + inner);
            lemma_nal_units_coded(inner);
            lemma_units_behind_first(u, inner);
        } else {
            assert(u + tail =~= u);
            lemma_units_behind_first(u, Seq::empty());
        }
        assert(seq![u] + rest =~= units);
    }
}

/// Law: what is extracted holds the parameter sets before the first coded slice,
/// and nothing else.
pub proof fn law_parameter_sets_only(b: Seq<u8>)
    ensures
        nal_units(parameter_sets(b)) == leading_sets(nal_units(b)),
        forall|i: int|
            0 <= i < nal_units(parameter_sets(b)).len() ==> is_parameter_set(
                #[trigger] nal_units(parameter_sets(b))[i],
            ),
{
    lemma_nal_units_clean(b);
    lemma_leading_sets_part(nal_units(b));
    lemma_stream_reads_back(leading_sets(nal_units(b)));
}

proof fn lemma_nal_units_clean(b: Seq<u8>)
    ensures
        all_clean(nal_units(b)),
{
    lemma_next_code_range(b);
    let e = next_code(b) as int;
    if e < b.len() {
        lemma_units_clean(b.skip(e + code_len(b.skip(e))));
    }
}

/// Parameter sets alone are all of them leading.
proof fn lemma_leading_sets_fixed(units: Seq<Seq<u8>>)
    requires
        forall|i: int| 0 <= i < units.len() ==> is_parameter_set(#[trigger] units[i]),
    ensures
        leading_sets(units) == units,
    decreases units.len(),
{
    if units.len() > 0 {
        assert(is_parameter_set(units[0]));
        let rest = units.skip(1);
        assert forall|i: int| 0 <= i < rest.len() implies is_parameter_set(#[trigger] rest[i]) by {
            assert(rest[i] == units[i + 1]);
        }
        lemma_leading_sets_fixed(rest);
        assert(seq![units[0]] + rest =~= units);
    } else {
        assert(leading_sets(units) =~= units);
    }
}

/// Law: extracting from what was extracted changes nothing.
pub proof fn law_extraction_is_stable(b: Seq<u8>)
    ensures
        parameter_sets(parameter_sets(b)) == parameter_sets(b),
{
    law_parameter_sets_only(b);
    lemma_leading_sets_fixed(nal_units(parameter_sets(b)));
}

/// A start code of four bytes or of three.
pub open spec fn start_code(long: bool) -> Seq<u8> {
    if long {
        seq![0u8, 0u8, 0u8, 1u8]
    } else {
        seq![0u8, 0u8, 1u8]
    }
}

/// A stream: each unit behind a start code, of four bytes where `long` says so.
pub open spec fn framed(units: Seq<Seq<u8>>, long: Seq<bool>) -> Seq<u8>
    decreases units.len(),
{
    if units.len() == 0 {
        Seq::empty()
    } else {
        start_code(long[0]) + units[0] + framed(units.skip(1), long.skip(1))
    }
}

/// A unit ends where the next start code stands.
proof fn lemma_next_code_behind(u: Seq<u8>, units: Seq<Seq<u8>>, long: Seq<bool>)
    requires
        clean(u),
        units.len() > 0 && u.len() > 0 && !long[0] ==> u.last() != 0,
    ensures
        next_code(u + framed(units, long)) == u.len(),
    decreases u.len(),
{
    let rest = framed(units, long);
    let b = u + rest;
    if units.len() > 0 {
        let tail = units[0] + framed(units.skip(1), long.skip(1));
        assert(rest =~= start_code(long[0]) + tail);
        assert(rest[0] == 0 && rest[1] == 0);
        assert(long[0] ==> rest[2] == 0 && rest[3] == 1);
        assert(!long[0] ==> rest[2] == 1);
    }
    if u.len() == 0 {
        assert(b =~= rest);
    } else {
        assert(code_len(b) == 0) by {
            assert(u.len() >= 3 ==> !(u[0] == 0 && u[1] == 0 && u[2] == 1));
            assert(u.len() >= 4 ==> !(u[1] == 0 && u[2] == 0 && u[3] == 1));
        }
        let t = u.skip(1);
        assert(b.skip(1) =~= t + rest);
        assert forall|j: int| 0 <= j && j + 3 <= t.len() implies !(#[trigger] t[j] == 0 && t[j + 1]
            == 0 && t[j + 2] == 1) by {
            assert(u[j + 1] == t[j]);
            assert(u[j + 1 + 1] == t[j + 1]);
            assert(u[j + 1 + 2] == t[j + 2]);
        }
        lemma_next_code_behind(t, units, long);
    }
}

/// The start code that a stream begins with.
proof fn lemma_code_of_framed(units: Seq<Seq<u8>>, long: Seq<bool>)
    requires
        units.len() > 0,
    ensures
        code_len(framed(units, long)) == start_code(long[0]).len(),
        framed(units, long).skip(start_code(long[0]).len() as int) == units[0] + framed(
            units.skip(1),
            long.skip(1),
        ),
{
    let tail = units[0] + framed(units.skip(1), long.skip(1));
    let b = framed(units, long);
    assert(b =~= start_code(long[0]) + tail);
    assert(b.skip(start_code(long[0]).len() as int) =~= tail);
    assert(b[0] == 0 && b[1] == 0);
    assert(long[0] ==> b[2] == 0 && b[3] == 1);
    assert(!long[0] ==> b[2] == 1);
}

proof fn lemma_units_of_framed(units: Seq<Seq<u8>>, long: Seq<bool>)
    requires
        units.len() > 0,
        units.len() == long.len(),
        all_clean(units),
        forall|i: int|
            0 <= i < units.len() - 1 && (#[trigger] units[i]).len() > 0 && !long[i + 1]
                ==> units[i].last() != 0,
    ensures
        units_behind(units[0] + framed(units.skip(1), long.skip(1))) == units,
    decreases units.len(),
{
    let u = units[0];
    let rest = units.skip(1);
    let more = long.skip(1);
    let b = u + framed(rest, more);
    assert(clean(u));
    if rest.len() > 0 {
        assert(more[0] == long[0int + 1]);
    }
    lemma_next_code_behind(u, rest, more);
    let e = u.len() as int;
    if rest.len() == 0 {
        assert(b =~= u);
        assert(seq![u] =~= units);
    } else {
        assert forall|i: int| 0 <= i < rest.len() implies clean(#[trigger] rest[i]) by {
            assert(rest[i] == units[i + 1]);
        }
        assert forall|i: int|
            0 <= i < rest.len() - 1 && (#[trigger] rest[i]).len() > 0 && !more[i
                + 1] implies rest[i].last() != 0 by {
            assert(rest[i] == units[i + 1]);
            assert(more[i + 1] == long[i + 1 + 1]);
        }
        lemma_units_of_framed(rest, more);
        lemma_code_of_framed(rest, more);
        let n = start_code(more[0]).len() as int;
        assert(b.take(e) =~= u);
        assert(b.skip(e) =~= framed(rest, more));
        assert(b.skip(e + n) =~= framed(rest, more).skip(n));
        assert(framed(rest, more).len() >= n);
        assert(seq![u] + rest =~= units);
    }
}

/// Law: the units of a stream are what stands between its start codes, of three
/// bytes or of four; what stands before the first one is none. The units hold no
/// start code, and none ends in a zero that a short code behind it would take.
pub proof fn law_units_stand_between_codes(
    junk: Seq<u8>,
    units: Seq<Seq<u8>>,
    long: Seq<bool>,
)
    requires
        units.len() == long.len(),
        forall|j: int|
            0 <= j && j + 3 <= junk.len() ==> !(#[trigger] junk[j] == 0 && junk[j + 1] == 0 && junk[j
                + 2] == 1),
        forall|i: int, j: int|
            0 <= i < units.len() && 0 <= j && j + 3 <= units[i].len() ==> !(
            #[trigger] units[i][j] == 0 && units[i][j + 1] == 0 && units[i][j + 2] == 1),
        units.len() > 0 && junk.len() > 0 && !long[0] ==> junk.last() != 0,
        forall|i: int|
            0 <= i < units.len() - 1 && (#[trigger] units[i]).len() > 0 && !long[i + 1]
                ==> units[i].last() != 0,
    ensures
        nal_units(junk + framed(units, long)) == units,
{
    assert forall|i: int| 0 <= i < units.len() implies clean(#[trigger] units[i]) by {
        assert forall|j: int| 0 <= j && j + 3 <= units[i].len() implies !(#[trigger] units[i][j]
            == 0 && units[i][j + 1] == 0 && units[i][j + 2] == 1) by {
        }
    }
    lemma_next_code_behind(junk, units, long);
    let b = junk + framed(units, long);
    let e = junk.len() as int;
    if units.len() == 0 {
        assert(nal_units(b) =~= units);
    } else {
        lemma_code_of_framed(units, long);
        lemma_units_of_framed(units, long);
        let n = start_code(long[0]).len() as int;
        assert(framed(units, long).len() >= n);
        assert(b.skip(e) =~= framed(units, long));
        assert(b.skip(e + n) =~= framed(units, long).skip(n));
    }
}

/// The type in the header of a unit.
proof fn lemma_nal_type_bits(h: u8)
    ensures
        nal_type(h) == (h >> 1) & 0x3f,
{
    assert((h >> 1) & 0x3f == (h / 2) % 64) by (bit_vector);
}

/// `src` tells where the leading parameter sets of `units` come from.
spec fn is_source(units: Seq<Seq<u8>>, src: Seq<int>) -> bool {
    &&& src.len() == leading_sets(units).len()
    &&& forall|a: int|
        #![trigger src[a]]
        0 <= a < src.len() ==> {
            &&& 0 <= src[a] < units.len()
            &&& leading_sets(units)[a] == units[src[a]]
            &&& units[src[a]].len() > 0
            &&& 32 <= (units[src[a]][0] >> 1) & 0x3f <= 34
            &&& forall|j: int|
                0 <= j < src[a] ==> (#[trigger] units[j]).len() == 0 || (units[j][0] >> 1) & 0x3f
                    >= 32
        }
    &&& forall|a: int, b: int| 0 <= a < b < src.len() ==> src[a] < src[b]
    &&& forall|i: int|
        0 <= i < units.len() && (#[trigger] units[i]).len() > 0 && 32 <= (units[i][0] >> 1) & 0x3f
            <= 34 && (forall|j: int|
            0 <= j < i ==> (#[trigger] units[j]).len() == 0 || (units[j][0] >> 1) & 0x3f >= 32)
            ==> src.contains(i)
}

proof fn lemma_leading_source(units: Seq<Seq<u8>>) -> (src: Seq<int>)
    ensures
        is_source(units, src),
    decreases units.len(),
{
    if units.len() == 0 {
        Seq::empty()
    } else {
        if units[0].len() > 0 {
            lemma_nal_type_bits(units[0][0]);
        }
        if is_slice(units[0]) {
            Seq::empty()
        } else {
            let before = lemma_leading_source(units.skip(1));
            lemma_leading_rest(units, before)
        }
    }
}

/// The sources of the units behind the first one, with the first one.
proof fn lemma_leading_rest(units: Seq<Seq<u8>>, before: Seq<int>) -> (src: Seq<int>)
    requires
        units.len() > 0,
        !is_slice(units[0]),
        is_source(units.skip(1), before),
    ensures
        is_source(units, src),
{
    let u = units[0];
    if u.len() > 0 {
        lemma_nal_type_bits(u[0]);
    }
    let rest = units.skip(1);
    let moved = Seq::new(before.len(), |a: int| before[a] + 1);
    let src = if is_parameter_set(u) {
        seq![0int] + moved
    } else {
        moved
    };
    let shift: int = if is_parameter_set(u) {
        1
    } else {
        0
    };
    assert forall|a: int| #![trigger src[a]] 0 <= a < src.len() implies {
        &&& 0 <= src[a] < units.len()
        &&& leading_sets(units)[a] == units[src[a]]
        &&& units[src[a]].len() > 0
        &&& 32 <= (units[src[a]][0] >> 1) & 0x3f <= 34
        &&& forall|j: int|
            0 <= j < src[a] ==> (#[trigger] units[j]).len() == 0 || (units[j][0] >> 1) & 0x3f >= 32
    } by {
        if a >= shift {
            let c = a - shift;
            assert(src[a] == before[c] + 1);
            assert(rest[before[c]] == units[src[a]]);
            assert forall|j: int| 0 <= j < src[a] implies (#[trigger] units[j]).len() == 0 || (
            units[j][0] >> 1) & 0x3f >= 32 by {
                if j > 0 {
                    assert(rest[j - 1] == units[j]);
                }
            }
        }
    }
    assert forall|a: int, b: int| 0 <= a < b < src.len() implies src[a] < src[b] by {
        assert(src[b] == before[b - shift] + 1);
        if a >= shift {
            assert(src[a] == before[a - shift] + 1);
        }
    }
    assert forall|i: int|
        0 <= i < units.len() && (#[trigger] units[i]).len() > 0 && 32 <= (units[i][0] >> 1) & 0x3f
            <= 34 && (forall|j: int|
            0 <= j < i ==> (#[trigger] units[j]).len() == 0 || (units[j][0] >> 1) & 0x3f
                >= 32) implies src.contains(i) by {
        if i == 0 {
            assert(src[0] == 0);
        } else {
            assert(rest[i - 1] == units[i]);
            assert forall|j: int| 0 <= j < i - 1 implies (#[trigger] rest[j]).len() == 0 || (
            rest[j][0] >> 1) & 0x3f >= 32 by {
                assert(rest[j] == units[j + 1]);
            }
            assert(before.contains(i - 1));
            let c = choose|c: int| 0 <= c < before.len() && before[c] == i - 1;
            assert(src[c + shift] == i);
        }
    }
    src
}

/// Law: which units are taken out of a stream: each with a header type of 32, 33 or
/// 34 that has only empty units and units of type 32 or more before it, and no
/// other, in their order. So the scan ends at a unit only if its type is below 32.
pub proof fn law_sets_before_the_first_picture(b: Seq<u8>) -> (src: Seq<int>)
    ensures
        ({
            let units = nal_units(b);
            let sets = nal_units(parameter_sets(b));
            &&& src.len() == sets.len()
            &&& forall|a: int|
                #![trigger src[a]]
                0 <= a < src.len() ==> {
                    &&& 0 <= src[a] < units.len()
                    &&& sets[a] == units[src[a]]
                    &&& units[src[a]].len() > 0
                    &&& 32 <= (units[src[a]][0] >> 1) & 0x3f <= 34
                    &&& forall|j: int|
                        0 <= j < src[a] ==> (#[trigger] units[j]).len() == 0 || (units[j][0] >> 1)
                            & 0x3f >= 32
                }
            &&& forall|a: int, c: int| 0 <= a < c < src.len() ==> src[a] < src[c]
            &&& forall|i: int|
                0 <= i < units.len() && (#[trigger] units[i]).len() > 0 && 32 <= (units[i][0] >> 1)
                    & 0x3f <= 34 && (forall|j: int|
                    0 <= j < i ==> (#[trigger] units[j]).len() == 0 || (units[j][0] >> 1) & 0x3f
                        >= 32) ==> src.contains(i)
        }),
{
    law_parameter_sets_only(b);
    lemma_leading_source(nal_units(b))
}

proof fn lemma_stream_is_framed(units: Seq<Seq<u8>>, long: Seq<bool>)
    requires
        units.len() == long.len(),
        forall|i: int| 0 <= i < long.len() ==> #[trigger] long[i],
    ensures
        stream_of(units) == framed(units, long),
    decreases units.len(),
{
    if units.len() > 0 {
        assert(long[0]);
        let rest = long.skip(1);
        assert forall|i: int| 0 <= i < rest.len() implies #[trigger] rest[i] by {
            assert(long[i + 1]);
        }
        lemma_stream_is_framed(units.skip(1), rest);
    }
}

/// Law: what is taken out is written with start codes of four bytes, and with
/// nothing else around the units.
pub proof fn law_sets_are_written_with_long_codes(b: Seq<u8>)
    ensures
        ({
            let sets = nal_units(parameter_sets(b));
            parameter_sets(b) == framed(sets, Seq::new(sets.len(), |i: int| true))
        }),
{
    law_parameter_sets_only(b);
    let sets = nal_units(parameter_sets(b));
    lemma_stream_is_framed(sets, Seq::new(sets.len(), |i: int| true));
}

} // verus!
