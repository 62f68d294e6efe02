//! Late binding: splicing runtime values into a call payload at byte offsets.
use crate::error::ContractError;
use vstd::prelude::*;

verus! {

/// Where the payload bytes that follow binding `i - 1` begin (0 for `i == 0`).
pub open spec fn segment_start(positions: Seq<usize>, i: int) -> int {
    if i <= 0 { 0 } else { positions[i - 1] + 1 }
}

/// Every position lies before the payload's last byte, and the positions
/// ascend strictly.
pub open spec fn positions_valid(len: int, positions: Seq<usize>) -> bool {
    forall|i: int|
        0 <= i < positions.len() ==> segment_start(positions, i) <= #[trigger] positions[i]
            && positions[i] + 1 < len
}

/// The views of a list of byte vectors.
pub open spec fn byte_views(values: Seq<Vec<u8>>) -> Seq<Seq<u8>> {
    values.map_values(|v: Vec<u8>| v@)
}

/// The output of patching up to and including the value of binding `i - 1`.
pub open spec fn patched_prefix(
    payload: Seq<u8>,
    positions: Seq<usize>,
    values: Seq<Seq<u8>>,
    i: int,
) -> Seq<u8>
    decreases i,
{
    if i <= 0 {
        Seq::empty()
    } else {
        patched_prefix(payload, positions, values, i - 1) + payload.subrange(
            segment_start(positions, i - 1),
            positions[i - 1] as int,
        ) + values[i - 1]
    }
}

/// The payload with the byte at each binding's position replaced by that
/// binding's value; positions count in the payload as given.
pub open spec fn patched(payload: Seq<u8>, positions: Seq<usize>, values: Seq<Seq<u8>>) -> Seq<u8> {
    let n = positions.len() as int;
    patched_prefix(payload, positions, values, n) + payload.subrange(
        segment_start(positions, n),
        payload.len() as int,
    )
}

/// How far the values of the first `i` bindings move what follows them:
/// each value takes the place of one byte.
pub open spec fn shift(values: Seq<Seq<u8>>, i: int) -> int
    decreases i,
{
    if i <= 0 { 0 } else { shift(values, i - 1) + values[i - 1].len() - 1 }
}

/// Appends `src[from..to]` to `out`.
fn append_range(out: &mut Vec<u8>, src: &Vec<u8>, from: usize, to: usize)
    requires
        from <= to <= src@.len(),
    ensures
        final(out)@ == old(out)@ + src@.subrange(from as int, to as int),
{
    let mut k: usize = from;
    while k < to
        invariant
            from <= k <= to <= src@.len(),
            out@ == old(out)@ + src@.subrange(from as int, k as int),
        decreases to - k,
    {
        out.push(src[k]);
        k += 1;
        assert(out@ =~= old(out)@ + src@.subrange(from as int, k as int));
    }
}

/// Replaces the byte at each of `positions` in `payload` by the matching entry
/// of `values`. Fails with `InvalidBindings` unless every position lies before
/// the payload's last byte and the positions ascend strictly.
pub fn patch(payload: &Vec<u8>, positions: &Vec<usize>, values: &Vec<Vec<u8>>) -> (r: Result<
    Vec<u8>,
    ContractError,
>)
    requires
        positions@.len() == values@.len(),
    ensures
        positions_valid(payload@.len() as int, positions@) ==> r is Ok && r->Ok_0@ == patched(
            payload@,
            positions@,
            byte_views(values@),
        ),
        !positions_valid(payload@.len() as int, positions@) ==> r == Err::<Vec<u8>, ContractError>(
            ContractError::InvalidBindings,
        ),
{
    let ghost vals = byte_views(values@);
    let len = payload.len();
    let n = positions.len();
    let mut out: Vec<u8> = Vec::new();
    let mut start: usize = 0;
    let mut i: usize = 0;
    while i < n
        invariant
            n == positions@.len() == values@.len(),
            len == payload@.len(),
            vals == byte_views(values@),
            i <= n,
            start as int == segment_start(positions@, i as int),
            start <= len,
            out@ == patched_prefix(payload@, positions@, vals, i as int),
            forall|k: int|
                0 <= k < i ==> segment_start(positions@, k) <= #[trigger] positions@[k]
                    && positions@[k] + 1 < len,
        decreases n - i,
    {
        let p = positions[i];
        if p < start || len == 0 || p >= len - 1 {
            assert(!(segment_start(positions@, i as int) <= positions@[i as int]
                && positions@[i as int] + 1 < len));
            return Err(ContractError::InvalidBindings);
        }
        let ghost before = out@;
        append_range(&mut out, payload, start, p);
        let v = &values[i];
        append_range(&mut out, v, 0, v.len());
        proof {
            assert(vals[i as int] == values@[i as int]@);
            assert(v@.subrange(0, v@.len() as int) =~= vals[i as int]);
            assert(out@ == before + payload@.subrange(start as int, p as int) + vals[i as int]);
            assert(patched_prefix(payload@, positions@, vals, i + 1) == before + payload@.subrange(
                start as int,
                p as int,
            ) + vals[i as int]);
        }
        start = p + 1;
        i += 1;
    }
    append_range(&mut out, payload, start, len);
    Ok(out)
}

/// Patching with no bindings leaves the payload as it is.
pub proof fn patch_without_bindings_is_identity(payload: Seq<u8>)
    ensures
        positions_valid(payload.len() as int, Seq::<usize>::empty()),
        patched(payload, Seq::<usize>::empty(), Seq::<Seq<u8>>::empty()) == payload,
{
    assert(patched(payload, Seq::<usize>::empty(), Seq::<Seq<u8>>::empty()) =~= payload);
}

proof fn lemma_prefix_len(payload: Seq<u8>, positions: Seq<usize>, values: Seq<Seq<u8>>, i: int)
    requires
        positions_valid(payload.len() as int, positions),
        positions.len() == values.len(),
        0 <= i <= positions.len(),
    ensures
        patched_prefix(payload, positions, values, i).len() == segment_start(positions, i) + shift(
            values,
            i,
        ),
    decreases i,
{
    if i > 0 {
        lemma_prefix_len(payload, positions, values, i - 1);
        assert(segment_start(positions, i - 1) <= positions[i - 1]);
    }
}

proof fn lemma_prefix_len_grows(
    payload: Seq<u8>,
    positions: Seq<usize>,
    values: Seq<Seq<u8>>,
    m: int,
    i: int,
)
    requires
        positions_valid(payload.len() as int, positions),
        positions.len() == values.len(),
        0 <= m <= i <= positions.len(),
    ensures
        patched_prefix(payload, positions, values, m).len() <= patched_prefix(
            payload,
            positions,
            values,
            i,
        ).len(),
    decreases i - m,
{
    if m < i {
        lemma_prefix_len_grows(payload, positions, values, m, i - 1);
        assert(segment_start(positions, i - 1) <= positions[i - 1]);
    }
}

proof fn lemma_prefix_grows(
    payload: Seq<u8>,
    positions: Seq<usize>,
    values: Seq<Seq<u8>>,
    m: int,
    i: int,
    k: int,
)
    requires
        positions_valid(payload.len() as int, positions),
        positions.len() == values.len(),
        0 <= m <= i <= positions.len(),
        0 <= k < patched_prefix(payload, positions, values, m).len(),
    ensures
        k < patched_prefix(payload, positions, values, i).len(),
        patched_prefix(payload, positions, values, i)[k] == patched_prefix(
            payload,
            positions,
            values,
            m,
        )[k],
    decreases i - m,
{
    if m < i {
        lemma_prefix_grows(payload, positions, values, m, i - 1, k);
        assert(segment_start(positions, i - 1) <= positions[i - 1]);
        let a = patched_prefix(payload, positions, values, i - 1);
        let b = payload.subrange(segment_start(positions, i - 1), positions[i - 1] as int);
        let c = values[i - 1];
        assert(patched_prefix(payload, positions, values, i) == a + b + c);
        assert((a + b + c)[k] == a[k]);
    }
}

/// Each binding's value stands in the output at its position, moved by the
/// values of the bindings before it.
pub proof fn patched_slot_holds_value(
    payload: Seq<u8>,
    positions: Seq<usize>,
    values: Seq<Seq<u8>>,
    i: int,
)
    requires
        positions_valid(payload.len() as int, positions),
        positions.len() == values.len(),
        0 <= i < positions.len(),
    ensures
        positions[i] + shift(values, i) + values[i].len() <= patched(
            payload,
            positions,
            values,
        ).len(),
        patched(payload, positions, values).subrange(
            positions[i] + shift(values, i),
            positions[i] + shift(values, i) + values[i].len(),
        ) == values[i],
{
    let n = positions.len() as int;
    let out = patched(payload, positions, values);
    let at = positions[i] + shift(values, i);
    lemma_prefix_len(payload, positions, values, i);
    lemma_prefix_len(payload, positions, values, i + 1);
    lemma_prefix_len(payload, positions, values, n);
    assert(segment_start(positions, i) <= positions[i]);
    assert(segment_start(positions, n) <= payload.len()) by {
        if n > 0 {
            assert(positions[n - 1] + 1 < payload.len());
        }
    }
    let a = patched_prefix(payload, positions, values, i);
    let b = payload.subrange(segment_start(positions, i), positions[i] as int);
    let c = values[i];
    assert(patched_prefix(payload, positions, values, i + 1) == a + b + c);
    let tail = payload.subrange(segment_start(positions, n), payload.len() as int);
    lemma_prefix_len_grows(payload, positions, values, i + 1, n);
    assert(out == patched_prefix(payload, positions, values, n) + tail);
    assert forall|k: int| 0 <= k < values[i].len() implies out[at + k] == values[i][k] by {
        lemma_prefix_grows(payload, positions, values, i + 1, n, at + k);
        assert((a + b + c)[at + k] == c[k]);
    }
    assert(out.subrange(at, at + values[i].len()) =~= values[i]);
}

proof fn lemma_gap_byte(
    payload: Seq<u8>,
    positions: Seq<usize>,
    values: Seq<Seq<u8>>,
    i: int,
    j: int,
)
    requires
        positions_valid(payload.len() as int, positions),
        positions.len() == values.len(),
        0 <= i < positions.len(),
        segment_start(positions, i) <= j < positions[i],
    ensures
        0 <= j + shift(values, i) < patched_prefix(payload, positions, values, positions.len() as int).len(),
        patched_prefix(payload, positions, values, positions.len() as int)[j + shift(values, i)]
            == payload[j],
{
    let n = positions.len() as int;
    let at = j + shift(values, i);
    lemma_prefix_len(payload, positions, values, i);
    let a = patched_prefix(payload, positions, values, i);
    let b = payload.subrange(segment_start(positions, i), positions[i] as int);
    let c = values[i];
    assert(patched_prefix(payload, positions, values, i + 1) == a + b + c);
    assert((a + b + c)[at] == b[j - segment_start(positions, i)]);
    lemma_prefix_grows(payload, positions, values, i + 1, n, at);
}

proof fn lemma_tail_byte(payload: Seq<u8>, positions: Seq<usize>, values: Seq<Seq<u8>>, j: int)
    requires
        positions_valid(payload.len() as int, positions),
        positions.len() == values.len(),
        segment_start(positions, positions.len() as int) <= j < payload.len(),
    ensures
        0 <= j + shift(values, positions.len() as int) < patched(payload, positions, values).len(),
        patched(payload, positions, values)[j + shift(values, positions.len() as int)]
            == payload[j],
{
    let n = positions.len() as int;
    lemma_prefix_len(payload, positions, values, n);
    let tail = payload.subrange(segment_start(positions, n), payload.len() as int);
    let out = patched(payload, positions, values);
    assert(out == patched_prefix(payload, positions, values, n) + tail);
    assert(out[j + shift(values, n)] == tail[j - segment_start(positions, n)]);
}

/// A payload byte that no binding replaces is kept, moved by the values of the
/// bindings before it: the first `i` bindings, where it lies after binding
/// `i - 1` and before binding `i` (or the payload's end).
pub proof fn patched_keeps_other_bytes(
    payload: Seq<u8>,
    positions: Seq<usize>,
    values: Seq<Seq<u8>>,
    i: int,
    j: int,
)
    requires
        positions_valid(payload.len() as int, positions),
        positions.len() == values.len(),
        0 <= i <= positions.len(),
        segment_start(positions, i) <= j,
        j < if i < positions.len() { positions[i] as int } else { payload.len() as int },
    ensures
        0 <= j + shift(values, i) < patched(payload, positions, values).len(),
        patched(payload, positions, values)[j + shift(values, i)] == payload[j],
{
    let n = positions.len() as int;
    if i < n {
        lemma_gap_byte(payload, positions, values, i, j);
        let tail = payload.subrange(segment_start(positions, n), payload.len() as int);
        let pre = patched_prefix(payload, positions, values, n);
        assert(patched(payload, positions, values) == pre + tail);
        assert((pre + tail)[j + shift(values, i)] == pre[j + shift(values, i)]);
    } else {
        lemma_tail_byte(payload, positions, values, j);
    }
}

/// A binding at or past the payload's last byte, or not after the binding
/// before it, makes the positions invalid, so that patching fails with
/// `InvalidBindings`.
pub proof fn out_of_place_binding_is_invalid(len: int, positions: Seq<usize>, i: int)
    requires
        0 <= i < positions.len(),
        positions[i] + 1 >= len || (i > 0 && positions[i] <= positions[i - 1]),
    ensures
        !positions_valid(len, positions),
{
    assert(!(segment_start(positions, i) <= positions[i] && positions[i] + 1 < len));
}

} // verus!
