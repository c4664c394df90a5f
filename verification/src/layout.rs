//! The two-block layout shared by tuples, records and collections: the lengths
//! of all the fields first, then all the fields.
use crate::endian::{
    get_le, le_bytes, le_value, lemma_le_bytes_len, lemma_le_value_of_bytes, pow256, put_le,
};
use crate::errors::{not_equal_to, not_more_than, BVExpectedSize, ByteVecError};
use crate::impls::BVSize;
use crate::traits::fits;
use vstd::prelude::*;
use vstd::slice::slice_subrange;

verus! {

/// The number of bytes in all of `bodies` together.
pub open spec fn total_len(bodies: Seq<Seq<u8>>) -> nat
    decreases bodies.len(),
{
    if bodies.len() == 0 {
        0
    } else {
        total_len(bodies.drop_last()) + bodies.last().len()
    }
}

/// The first block: the length of each body, in `width` bytes apiece.
pub open spec fn size_block(bodies: Seq<Seq<u8>>, width: nat) -> Seq<u8>
    decreases bodies.len(),
{
    if bodies.len() == 0 {
        Seq::empty()
    } else {
        size_block(bodies.drop_last(), width) + le_bytes(bodies.last().len(), width)
    }
}

/// The second block: the bodies, back to back.
pub open spec fn body_block(bodies: Seq<Seq<u8>>) -> Seq<u8>
    decreases bodies.len(),
{
    if bodies.len() == 0 {
        Seq::empty()
    } else {
        body_block(bodies.drop_last()) + bodies.last()
    }
}

/// A tuple or record whose fields encode to `bodies`: their lengths, then the fields.
pub open spec fn tuple_layout(bodies: Seq<Seq<u8>>, width: nat) -> Seq<u8> {
    size_block(bodies, width) + body_block(bodies)
}

/// The length of `tuple_layout(bodies, width)`.
pub open spec fn tuple_len(bodies: Seq<Seq<u8>>, width: nat) -> nat {
    bodies.len() * width + total_len(bodies)
}

/// A collection whose elements encode to `bodies`: their number, their
/// lengths, then the elements.
pub open spec fn collection_layout(bodies: Seq<Seq<u8>>, width: nat) -> Seq<u8> {
    le_bytes(bodies.len(), width) + tuple_layout(bodies, width)
}

/// The length of `collection_layout(bodies, width)`.
pub open spec fn collection_len(bodies: Seq<Seq<u8>>, width: nat) -> nat {
    width + tuple_len(bodies, width)
}

/// The sum of `sizes`.
pub open spec fn sum(sizes: Seq<nat>) -> nat
    decreases sizes.len(),
{
    if sizes.len() == 0 {
        0
    } else {
        sum(sizes.drop_last()) + sizes.last()
    }
}

/// The `i`-th of the size fields that start at byte `start` of `bytes`.
pub open spec fn size_field(bytes: Seq<u8>, start: nat, i: int, width: nat) -> nat {
    le_value(bytes.subrange(start + i * width, start + i * width + width))
}

/// The `count` size fields that start at byte `start` of `bytes`.
pub open spec fn size_fields(bytes: Seq<u8>, start: nat, count: nat, width: nat) -> Seq<nat> {
    Seq::new(count, |i: int| size_field(bytes, start, i, width))
}

/// `data` cut into consecutive pieces of the lengths `sizes`.
pub open spec fn split(data: Seq<u8>, sizes: Seq<nat>) -> Seq<Seq<u8>> {
    Seq::new(
        sizes.len(),
        |i: int| data.subrange(sum(sizes.take(i)) as int, sum(sizes.take(i + 1)) as int),
    )
}

/// The bodies that follow `count` size fields starting at byte `start`, where
/// `bytes` is long enough to hold those fields: the sizes must add up to what
/// is left of the buffer.
pub open spec fn sized_bodies(bytes: Seq<u8>, start: nat, count: nat, width: nat) -> Result<
    Seq<Seq<u8>>,
    ByteVecError,
> {
    let sizes = size_fields(bytes, start, count, width);
    let head = start + count * width;
    if head + sum(sizes) != bytes.len() {
        Err(not_equal_to(head + sum(sizes), bytes.len()))
    } else {
        Ok(split(bytes.skip(head as int), sizes))
    }
}

/// The field bodies of a tuple or record of `arity` fields, or the error of a
/// buffer that is not laid out as one.
///
/// The size fields are read one by one, so a buffer that ends among them is
/// reported at the first field that is not whole.
pub open spec fn tuple_frame(bytes: Seq<u8>, arity: nat, width: nat) -> Result<
    Seq<Seq<u8>>,
    ByteVecError,
> {
    if bytes.len() < arity * width {
        Err(not_more_than((bytes.len() / width + 1) * width, bytes.len()))
    } else {
        sized_bodies(bytes, 0, arity, width)
    }
}

/// The element bodies of a collection, or the error of a buffer that is not
/// laid out as one.
pub open spec fn collection_frame(bytes: Seq<u8>, width: nat) -> Result<
    Seq<Seq<u8>>,
    ByteVecError,
> {
    if bytes.len() < width {
        Err(not_more_than(width, bytes.len()))
    } else {
        let count = le_value(bytes.subrange(0, width as int));
        if bytes.len() - width < count * width {
            Err(not_more_than(width + count * width, bytes.len()))
        } else {
            sized_bodies(bytes, width, count, width)
        }
    }
}

/// Whether body `i` of `bodies` is what runs from `bounds[i]` to `bounds[i + 1]` in `bytes`.
pub open spec fn marks_body(
    bounds: Seq<usize>,
    bytes: Seq<u8>,
    bodies: Seq<Seq<u8>>,
    i: int,
) -> bool {
    &&& bounds[i] <= bounds[i + 1] <= bytes.len()
    &&& bytes.subrange(bounds[i] as int, bounds[i + 1] as int) == bodies[i]
}

/// Whether `bounds` marks where each of `bodies` lies in `bytes`.
pub open spec fn marks(bounds: Seq<usize>, bytes: Seq<u8>, bodies: Seq<Seq<u8>>) -> bool {
    &&& bounds.len() == bodies.len() + 1
    &&& forall|i: int| 0 <= i < bodies.len() ==> #[trigger] marks_body(bounds, bytes, bodies, i)
}

/// Whether `found` reports `frame`: the same error, or bounds that mark its bodies.
pub open spec fn reports(
    found: Result<Vec<usize>, ByteVecError>,
    bytes: Seq<u8>,
    frame: Result<Seq<Seq<u8>>, ByteVecError>,
) -> bool {
    match frame {
        Ok(bodies) => found matches Ok(bounds) && marks(bounds@, bytes, bodies),
        Err(e) => found matches Err(x) && x == e,
    }
}

/// The contents of each of `bodies`.
pub open spec fn views(bodies: Seq<Vec<u8>>) -> Seq<Seq<u8>> {
    Seq::new(bodies.len(), |i: int| bodies[i]@)
}

/// The lengths of the two blocks, and of the layouts made of them.
pub proof fn lemma_layout_len(bodies: Seq<Seq<u8>>, width: nat)
    ensures
        size_block(bodies, width).len() == bodies.len() * width,
        body_block(bodies).len() == total_len(bodies),
        tuple_layout(bodies, width).len() == tuple_len(bodies, width),
        collection_layout(bodies, width).len() == collection_len(bodies, width),
    decreases bodies.len(),
{
    if bodies.len() > 0 {
        lemma_layout_len(bodies.drop_last(), width);
        lemma_le_bytes_len(bodies.last().len(), width);
        assert((bodies.len() - 1) * width + width == bodies.len() * width) by (nonlinear_arith);
    } else {
        assert(0 * width == 0) by (nonlinear_arith);
    }
    lemma_le_bytes_len(bodies.len(), width);
}

/// What one more body adds to each block.
pub proof fn lemma_layout_push(bodies: Seq<Seq<u8>>, body: Seq<u8>, width: nat)
    ensures
        size_block(bodies.push(body), width) == size_block(bodies, width) + le_bytes(
            body.len(),
            width,
        ),
        body_block(bodies.push(body)) == body_block(bodies) + body,
        total_len(bodies.push(body)) == total_len(bodies) + body.len(),
        tuple_len(bodies.push(body), width) == tuple_len(bodies, width) + width + body.len(),
{
    assert(bodies.push(body).drop_last() =~= bodies);
    assert((bodies.len() + 1) * width == bodies.len() * width + width) by (nonlinear_arith);
}

/// No body is longer than all of them together.
pub proof fn lemma_body_within_total(bodies: Seq<Seq<u8>>, i: int)
    requires
        0 <= i < bodies.len(),
    ensures
        bodies[i].len() <= total_len(bodies),
    decreases bodies.len(),
{
    if i < bodies.len() - 1 {
        lemma_body_within_total(bodies.drop_last(), i);
    }
}

/// The size that stands for a buffer of `len` bytes, or `None` where `Size`
/// cannot hold that length.
pub fn size_of_len<Size>(len: usize) -> (size: Option<Size>) where Size: BVSize
    ensures
        match size {
            Some(n) => n.value() == len,
            None => !fits(len as nat, Size::width()),
        },
{
    let max = Size::max_value();
    proof {
        crate::endian::lemma_pow256_increases(0, Size::width());
    }
    if len <= max.as_usize() {
        proof {
            vstd::arithmetic::div_mod::lemma_small_mod(len as nat, pow256(Size::width()));
        }
        Some(Size::from_usize(len))
    } else {
        None
    }
}

/// The size of what came before plus one more field and its size field, or
/// `None` where either is missing or `Size` cannot hold the sum.
pub fn add_field_size<Size>(acc: Option<Size>, field: Option<Size>) -> (sum: Option<
    Size,
>) where Size: BVSize
    ensures
        match sum {
            Some(n) => acc matches Some(a) && field matches Some(f) && n.value() == a.value()
                + f.value() + Size::width(),
            None => acc matches Some(a) ==> (field matches Some(f) ==> !fits(
                a.value() + f.value() + Size::width(),
                Size::width(),
            )),
        },
{
    match acc {
        Some(a) => match field {
            Some(f) => match a.checked_add(f) {
                Some(both) => both.checked_add(Size::get_size_of()),
                None => None,
            },
            None => None,
        },
        None => None,
    }
}

/// Appends `len` to `out` as a size field: `Size::width()` bytes, least
/// significant first.
pub fn put_len<Size>(out: &mut Vec<u8>, len: usize) where Size: BVSize
    ensures
        final(out)@ == old(out)@ + le_bytes(len as nat, Size::width()),
{
    proof {
        Size::lemma_width();
    }
    let width = Size::get_size_of().as_usize();
    put_le(out, len as u64, width);
}

/// The length of the tuple layout of `bodies`, or `None` where `Size` cannot
/// hold it. Every partial sum is checked.
pub fn layout_size<Size>(bodies: &Vec<Vec<u8>>) -> (size: Option<Size>) where Size: BVSize
    ensures
        match size {
            Some(n) => n.value() == tuple_len(views(bodies@), Size::width()),
            None => !fits(tuple_len(views(bodies@), Size::width()), Size::width()),
        },
{
    let ghost all = views(bodies@);
    let ghost width = Size::width();
    let mut acc: Option<Size> = Some(Size::from_usize(0));
    proof {
        crate::endian::lemma_pow256_increases(0, width);
        vstd::arithmetic::div_mod::lemma_small_mod(0, pow256(width));
        assert(all.take(0) =~= Seq::<Seq<u8>>::empty());
        assert(0 * width == 0) by (nonlinear_arith);
    }
    let mut i: usize = 0;
    while i < bodies.len()
        invariant
            i <= bodies.len(),
            all == views(bodies@),
            width == Size::width(),
            match acc {
                Some(n) => n.value() == tuple_len(all.take(i as int), width),
                None => !fits(tuple_len(all.take(i as int), width), width),
            },
        decreases bodies.len() - i,
    {
        proof {
            assert(all.take(i as int + 1) =~= all.take(i as int).push(all[i as int]));
            lemma_layout_push(all.take(i as int), all[i as int], width);
        }
        let field = size_of_len::<Size>(bodies[i].len());
        acc = add_field_size(acc, field);
        i += 1;
    }
    assert(all.take(i as int) =~= all);
    acc
}

/// Appends the tuple layout of `bodies` to `out`: every size field, then
/// every body.
pub fn put_blocks<Size>(out: &mut Vec<u8>, bodies: &Vec<Vec<u8>>) where Size: BVSize
    ensures
        final(out)@ == old(out)@ + tuple_layout(views(bodies@), Size::width()),
{
    let ghost start = out@;
    let ghost all = views(bodies@);
    let ghost width = Size::width();
    assert(all.take(0) =~= Seq::<Seq<u8>>::empty());
    let mut i: usize = 0;
    while i < bodies.len()
        invariant
            i <= bodies.len(),
            all == views(bodies@),
            width == Size::width(),
            out@ == start + size_block(all.take(i as int), width),
        decreases bodies.len() - i,
    {
        proof {
            assert(all.take(i as int + 1) =~= all.take(i as int).push(all[i as int]));
            lemma_layout_push(all.take(i as int), all[i as int], width);
        }
        put_len::<Size>(out, bodies[i].len());
        i += 1;
    }
    assert(all.take(i as int) =~= all);
    let mut j: usize = 0;
    while j < bodies.len()
        invariant
            j <= bodies.len(),
            all == views(bodies@),
            out@ == start + size_block(all, width) + body_block(all.take(j as int)),
        decreases bodies.len() - j,
    {
        proof {
            assert(all.take(j as int + 1) =~= all.take(j as int).push(all[j as int]));
            lemma_layout_push(all.take(j as int), all[j as int], width);
        }
        let ghost before = out@;
        out.extend_from_slice(bodies[j].as_slice());
        assert(out@ =~= before + all[j as int]);
        j += 1;
    }
    assert(all.take(j as int) =~= all);
}

/// Lays out a tuple or record whose fields have been encoded to `bodies`, or
/// fails with an overflow where `Size` cannot hold the length of the result.
pub fn pack_tuple<Size>(bodies: &Vec<Vec<u8>>) -> (bytes: Result<
    Vec<u8>,
    ByteVecError,
>) where Size: BVSize
    ensures
        match bytes {
            Ok(b) => b@ == tuple_layout(views(bodies@), Size::width()) && fits(
                b@.len(),
                Size::width(),
            ),
            Err(e) => e is OverflowError && !fits(
                tuple_len(views(bodies@), Size::width()),
                Size::width(),
            ),
        },
{
    proof {
        lemma_layout_len(views(bodies@), Size::width());
    }
    match layout_size::<Size>(bodies) {
        Some(size) => {
            proof {
                size.lemma_value();
            }
            let mut out: Vec<u8> = Vec::new();
            put_blocks::<Size>(&mut out, bodies);
            Ok(out)
        },
        None => Err(ByteVecError::OverflowError),
    }
}

/// Lays out a collection whose elements have been encoded to `bodies`, or
/// fails with an overflow where `Size` cannot hold the length of the result.
pub fn pack_collection<Size>(bodies: &Vec<Vec<u8>>) -> (bytes: Result<
    Vec<u8>,
    ByteVecError,
>) where Size: BVSize
    ensures
        match bytes {
            Ok(b) => b@ == collection_layout(views(bodies@), Size::width()) && fits(
                b@.len(),
                Size::width(),
            ),
            Err(e) => e is OverflowError && !fits(
                collection_len(views(bodies@), Size::width()),
                Size::width(),
            ),
        },
{
    proof {
        lemma_layout_len(views(bodies@), Size::width());
    }
    let whole = match layout_size::<Size>(bodies) {
        Some(size) => size.checked_add(Size::get_size_of()),
        None => None,
    };
    match whole {
        Some(size) => {
            proof {
                size.lemma_value();
            }
            let mut out: Vec<u8> = Vec::new();
            put_len::<Size>(&mut out, bodies.len());
            put_blocks::<Size>(&mut out, bodies);
            Ok(out)
        },
        None => Err(ByteVecError::OverflowError),
    }
}

/// The sum of the first `k` sizes is at most the sum of the first `n`.
pub proof fn lemma_sum_take(sizes: Seq<nat>, k: int, n: int)
    requires
        0 <= k <= n <= sizes.len(),
    ensures
        sum(sizes.take(k)) <= sum(sizes.take(n)),
    decreases n - k,
{
    if k < n {
        assert(sizes.take(n).drop_last() =~= sizes.take(n - 1));
        lemma_sum_take(sizes, k, n - 1);
    }
}

/// Fewer than `c` whole groups of `w` fit in `a` exactly when `a` is below `c` groups.
pub proof fn lemma_groups(a: nat, w: nat, c: nat)
    requires
        w > 0,
    ensures
        a / w < c <==> a < c * w,
        c * w <= a ==> c <= a,
{
    vstd::arithmetic::div_mod::lemma_fundamental_div_mod(a as int, w as int);
    let q = a / w;
    assert(0 <= a % w < w);
    if q < c {
        assert((q + 1) * w <= c * w) by (nonlinear_arith)
            requires
                q + 1 <= c,
                w > 0,
        ;
        assert((q + 1) * w == w * q + w) by (nonlinear_arith);
    } else {
        assert(c * w <= q * w) by (nonlinear_arith)
            requires
                c <= q,
                w > 0,
        ;
        assert(q * w == w * q) by (nonlinear_arith);
    }
    assert(c <= c * w) by (nonlinear_arith)
        requires
            w >= 1,
    ;
}

/// Reads the `count` size fields that start at byte `start`, and checks that
/// the sizes they give add up to the rest of the buffer.
pub(crate) fn read_sizes<Size>(bytes: &[u8], start: usize, count: usize) -> (found: Result<
    Vec<usize>,
    ByteVecError,
>) where Size: BVSize
    requires
        start + count * Size::width() <= bytes@.len(),
    ensures
        reports(found, bytes@, sized_bodies(bytes@, start as nat, count as nat, Size::width())),
{
    proof {
        Size::lemma_width();
    }
    let width = Size::get_size_of().as_usize();
    let ghost w = Size::width();
    let ghost sizes = size_fields(bytes@, start as nat, count as nat, w);
    let len = bytes.len();
    assert(start + count * width <= len) by (nonlinear_arith)
        requires
            start + count * w <= len,
            width == w,
    ;
    let head = start + count * width;
    let mut bounds: Vec<usize> = Vec::new();
    bounds.push(head);
    let mut total: u128 = head as u128;
    let mut i: usize = 0;
    assert(sizes.take(0) =~= Seq::<nat>::empty());
    while i < count
        invariant
            i <= count,
            width == w,
            1 <= w <= 8,
            head == start + count * w,
            head <= bytes@.len(),
            sizes == size_fields(bytes@, start as nat, count as nat, w),
            total == head + sum(sizes.take(i as int)),
            total <= head + i * 0xffff_ffff_ffff_ffff,
            bounds@.len() == i + 1,
            forall|k: int|
                0 <= k <= i && head + sum(sizes.take(k)) <= bytes@.len() ==> #[trigger] bounds@[k]
                    == head + sum(sizes.take(k)),
        decreases count - i,
    {
        proof {
            assert(i * w + w <= count * w) by (nonlinear_arith)
                requires
                    i + 1 <= count,
                    w >= 0,
            ;
            assert(sizes.take(i as int + 1).drop_last() =~= sizes.take(i as int));
        }
        let at = start + i * width;
        let size = get_le(slice_subrange(bytes, at, at + width));
        assert(size == sizes[i as int]);
        total = total + size as u128;
        let end = if total <= bytes.len() as u128 {
            total as usize
        } else {
            bytes.len()
        };
        bounds.push(end);
        i += 1;
    }
    assert(sizes.take(i as int) =~= sizes);
    if total == bytes.len() as u128 {
        proof {
            let bodies = split(bytes@.skip(head as int), sizes);
            assert forall|k: int| 0 <= k < bodies.len() implies #[trigger] marks_body(
                bounds@,
                bytes@,
                bodies,
                k,
            ) by {
                lemma_sum_take(sizes, k, k + 1);
                lemma_sum_take(sizes, k + 1, count as int);
                assert(bytes@.subrange(bounds@[k] as int, bounds@[k + 1] as int)
                    =~= bytes@.skip(head as int).subrange(
                    sum(sizes.take(k)) as int,
                    sum(sizes.take(k + 1)) as int,
                ));
            }
        }
        Ok(bounds)
    } else {
        let expected = if total > usize::MAX as u128 {
            usize::MAX
        } else {
            total as usize
        };
        Err(
            ByteVecError::BadSizeDecodeError {
                expected: BVExpectedSize::EqualTo(expected),
                actual: bytes.len(),
            },
        )
    }
}

/// Finds the fields of a tuple or record of `arity` fields in `bytes`: the
/// bounds of each field's body, or the error of a buffer that is not laid out
/// as such a tuple.
pub fn read_tuple_frame<Size>(bytes: &[u8], arity: usize) -> (found: Result<
    Vec<usize>,
    ByteVecError,
>) where Size: BVSize
    ensures
        reports(found, bytes@, tuple_frame(bytes@, arity as nat, Size::width())),
{
    proof {
        Size::lemma_width();
        lemma_groups(bytes@.len(), Size::width(), arity as nat);
    }
    let width = Size::get_size_of().as_usize();
    let whole = bytes.len() / width;
    if whole < arity {
        assert((whole + 1) * width <= 0x1_0000_0000_0000_0000 * 8) by (nonlinear_arith)
            requires
                0 <= whole + 1 <= 0x1_0000_0000_0000_0000,
                0 <= width <= 8,
        ;
        let wanted: u128 = (whole as u128 + 1) * (width as u128);
        let expected = if wanted > usize::MAX as u128 {
            usize::MAX
        } else {
            wanted as usize
        };
        Err(
            ByteVecError::BadSizeDecodeError {
                expected: BVExpectedSize::MoreThan(expected),
                actual: bytes.len(),
            },
        )
    } else {
        read_sizes::<Size>(bytes, 0, arity)
    }
}

/// Finds the elements of a collection in `bytes`: the bounds of each
/// element's body, or the error of a buffer that is not laid out as a
/// collection.
pub fn read_collection_frame<Size>(bytes: &[u8]) -> (found: Result<
    Vec<usize>,
    ByteVecError,
>) where Size: BVSize
    ensures
        reports(found, bytes@, collection_frame(bytes@, Size::width())),
{
    proof {
        Size::lemma_width();
    }
    let width = Size::get_size_of().as_usize();
    if bytes.len() < width {
        Err(
            ByteVecError::BadSizeDecodeError {
                expected: BVExpectedSize::MoreThan(width),
                actual: bytes.len(),
            },
        )
    } else {
        let count = get_le(slice_subrange(bytes, 0, width));
        let room = (bytes.len() - width) / width;
        proof {
            lemma_groups((bytes@.len() - width) as nat, Size::width(), count as nat);
        }
        if (room as u64) < count {
            assert(count * width <= 0x1_0000_0000_0000_0000 * 8) by (nonlinear_arith)
                requires
                    0 <= count <= 0x1_0000_0000_0000_0000,
                    0 <= width <= 8,
            ;
            let wanted: u128 = width as u128 + (count as u128) * (width as u128);
            let expected = if wanted > usize::MAX as u128 {
                usize::MAX
            } else {
                wanted as usize
            };
            Err(
                ByteVecError::BadSizeDecodeError {
                    expected: BVExpectedSize::MoreThan(expected),
                    actual: bytes.len(),
                },
            )
        } else {
            read_sizes::<Size>(bytes, width, count as usize)
        }
    }
}

/// The length of each of `bodies`.
pub open spec fn lens(bodies: Seq<Seq<u8>>) -> Seq<nat> {
    Seq::new(bodies.len(), |i: int| bodies[i].len())
}

/// Each block of two runs of bodies is the blocks of the runs, one after the other.
pub proof fn lemma_layout_concat(a: Seq<Seq<u8>>, b: Seq<Seq<u8>>, width: nat)
    ensures
        size_block(a + b, width) == size_block(a, width) + size_block(b, width),
        body_block(a + b) == body_block(a) + body_block(b),
        total_len(a + b) == total_len(a) + total_len(b),
    decreases b.len(),
{
    if b.len() == 0 {
        assert(a + b =~= a);
    } else {
        assert((a + b).drop_last() =~= a + b.drop_last());
        lemma_layout_concat(a, b.drop_last(), width);
    }
}

/// The lengths of the bodies add up to the total length.
pub proof fn lemma_sum_lens(bodies: Seq<Seq<u8>>)
    ensures
        sum(lens(bodies)) == total_len(bodies),
    decreases bodies.len(),
{
    if bodies.len() > 0 {
        assert(lens(bodies).drop_last() =~= lens(bodies.drop_last()));
        lemma_sum_lens(bodies.drop_last());
    }
}

/// Where body `i` and its size field lie in the two blocks.
pub proof fn lemma_layout_at(bodies: Seq<Seq<u8>>, i: int, width: nat)
    requires
        0 <= i < bodies.len(),
    ensures
        i * width + width <= size_block(bodies, width).len(),
        size_block(bodies, width).subrange(i * width, i * width + width) == le_bytes(
            bodies[i].len(),
            width,
        ),
        sum(lens(bodies).take(i)) + bodies[i].len() == sum(lens(bodies).take(i + 1)),
        sum(lens(bodies).take(i + 1)) <= body_block(bodies).len(),
        body_block(bodies).subrange(
            sum(lens(bodies).take(i)) as int,
            sum(lens(bodies).take(i + 1)) as int,
        ) == bodies[i],
{
    let before = bodies.take(i);
    let one = seq![bodies[i]];
    let after = bodies.skip(i + 1);
    assert(bodies =~= before + one + after);
    lemma_layout_concat(before, one, width);
    lemma_layout_concat(before + one, after, width);
    lemma_layout_len(before, width);
    lemma_layout_len(one, width);
    lemma_layout_len(after, width);
    lemma_layout_len(bodies, width);
    let none = Seq::<Seq<u8>>::empty();
    assert(one =~= none.push(bodies[i]));
    lemma_layout_push(none, bodies[i], width);
    assert(size_block(none, width) =~= Seq::<u8>::empty());
    assert(body_block(none) =~= Seq::<u8>::empty());
    assert(size_block(one, width) =~= le_bytes(bodies[i].len(), width));
    assert(body_block(one) =~= bodies[i]);
    assert(1 * width == width) by (nonlinear_arith);
    assert(lens(bodies).take(i) =~= lens(before));
    assert(lens(bodies).take(i + 1) =~= lens(before + one));
    lemma_sum_lens(before);
    lemma_sum_lens(before + one);
    let sizes = size_block(bodies, width);
    assert(sizes.subrange(i * width, i * width + width) =~= le_bytes(bodies[i].len(), width));
    let body = body_block(bodies);
    assert(body.subrange(total_len(before) as int, total_len(before + one) as int) =~= bodies[i]);
}

/// Bodies laid out after any run of bytes are found again behind it, provided
/// `width` bytes can hold each length.
pub proof fn lemma_sized_bodies_of_layout(before: Seq<u8>, bodies: Seq<Seq<u8>>, width: nat)
    requires
        width >= 1,
        forall|i: int| 0 <= i < bodies.len() ==> (#[trigger] bodies[i]).len() < pow256(width),
    ensures
        sized_bodies(
            before + tuple_layout(bodies, width),
            before.len(),
            bodies.len(),
            width,
        ) == Ok::<Seq<Seq<u8>>, ByteVecError>(bodies),
{
    let bytes = before + tuple_layout(bodies, width);
    let start = before.len();
    let count = bodies.len();
    let sizes = size_fields(bytes, start, count, width);
    let head = start + count * width;
    lemma_layout_len(bodies, width);
    assert forall|i: int| 0 <= i < count implies sizes[i] == lens(bodies)[i] by {
        lemma_layout_at(bodies, i, width);
        lemma_le_value_of_bytes(bodies[i].len(), width);
        assert(bytes.subrange(start + i * width, start + i * width + width) =~= size_block(
            bodies,
            width,
        ).subrange(i * width, i * width + width));
    }
    assert(sizes =~= lens(bodies));
    lemma_sum_lens(bodies);
    assert(bytes.skip(head as int) =~= body_block(bodies));
    let found = split(bytes.skip(head as int), sizes);
    assert forall|i: int| 0 <= i < count implies found[i] == bodies[i] by {
        lemma_layout_at(bodies, i, width);
    }
    assert(found =~= bodies);
}

/// The fields of a tuple are found again in its layout, provided `width`
/// bytes can hold the length of each.
pub proof fn lemma_tuple_frame_of_layout(bodies: Seq<Seq<u8>>, width: nat)
    requires
        width >= 1,
        forall|i: int| 0 <= i < bodies.len() ==> (#[trigger] bodies[i]).len() < pow256(width),
    ensures
        tuple_frame(tuple_layout(bodies, width), bodies.len(), width) == Ok::<
            Seq<Seq<u8>>,
            ByteVecError,
        >(bodies),
{
    let empty = Seq::<u8>::empty();
    lemma_sized_bodies_of_layout(empty, bodies, width);
    lemma_layout_len(bodies, width);
    assert(empty + tuple_layout(bodies, width) =~= tuple_layout(bodies, width));
}

/// The elements of a collection are found again in its layout, provided
/// `width` bytes can hold their number and the length of each.
pub proof fn lemma_collection_frame_of_layout(bodies: Seq<Seq<u8>>, width: nat)
    requires
        width >= 1,
        bodies.len() < pow256(width),
        forall|i: int| 0 <= i < bodies.len() ==> (#[trigger] bodies[i]).len() < pow256(width),
    ensures
        collection_frame(collection_layout(bodies, width), width) == Ok::<
            Seq<Seq<u8>>,
            ByteVecError,
        >(bodies),
{
    let count = le_bytes(bodies.len(), width);
    let bytes = collection_layout(bodies, width);
    lemma_sized_bodies_of_layout(count, bodies, width);
    lemma_layout_len(bodies, width);
    lemma_le_bytes_len(bodies.len(), width);
    lemma_le_value_of_bytes(bodies.len(), width);
    assert(bytes.subrange(0, width as int) =~= count);
}

/// A layout that fits `width` has bodies whose number and lengths fit it too.
pub proof fn lemma_parts_fit(bodies: Seq<Seq<u8>>, width: nat)
    requires
        width >= 1,
        fits(tuple_len(bodies, width), width),
    ensures
        bodies.len() < pow256(width),
        forall|i: int| 0 <= i < bodies.len() ==> (#[trigger] bodies[i]).len() < pow256(width),
{
    crate::endian::lemma_pow256_increases(0, width);
    assert(bodies.len() <= bodies.len() * width) by (nonlinear_arith)
        requires
            width >= 1,
    ;
    assert forall|i: int| 0 <= i < bodies.len() implies (#[trigger] bodies[i]).len() < pow256(
        width,
    ) by {
        lemma_body_within_total(bodies, i);
    }
}

/// A buffer that holds the size fields of a tuple, and bodies of another
/// length than those fields add up to, is refused with the length it should
/// have had.
pub proof fn lemma_tuple_truncated(bytes: Seq<u8>, arity: nat, width: nat)
    requires
        width >= 1,
        bytes.len() >= arity * width,
        arity * width + sum(size_fields(bytes, 0, arity, width)) != bytes.len(),
    ensures
        tuple_frame(bytes, arity, width) == Err::<Seq<Seq<u8>>, ByteVecError>(
            not_equal_to(arity * width + sum(size_fields(bytes, 0, arity, width)), bytes.len()),
        ),
{
}

/// A buffer too short for the size fields of a tuple is refused with the
/// end of the first size field that is not whole.
pub proof fn lemma_tuple_short(bytes: Seq<u8>, arity: nat, width: nat)
    requires
        width >= 1,
        bytes.len() < arity * width,
    ensures
        tuple_frame(bytes, arity, width) == Err::<Seq<Seq<u8>>, ByteVecError>(
            not_more_than((bytes.len() / width + 1) * width, bytes.len()),
        ),
        bytes.len() < (bytes.len() / width + 1) * width <= arity * width,
{
    lemma_groups(bytes.len(), width, arity);
    lemma_groups(bytes.len(), width, bytes.len() / width + 1);
    let whole = bytes.len() / width;
    assert((whole + 1) * width <= arity * width) by (nonlinear_arith)
        requires
            whole + 1 <= arity,
            width >= 1,
    ;
}

/// A buffer that holds the count and the size fields of a collection, and
/// bodies of another length than those fields add up to, is refused with the
/// length it should have had.
pub proof fn lemma_collection_truncated(bytes: Seq<u8>, width: nat)
    requires
        width >= 1,
        bytes.len() >= width,
        bytes.len() - width >= le_value(bytes.subrange(0, width as int)) * width,
        ({
            let count = le_value(bytes.subrange(0, width as int));
            width + count * width + sum(size_fields(bytes, width, count, width)) != bytes.len()
        }),
    ensures
        ({
            let count = le_value(bytes.subrange(0, width as int));
            collection_frame(bytes, width) == Err::<Seq<Seq<u8>>, ByteVecError>(
                not_equal_to(
                    width + count * width + sum(size_fields(bytes, width, count, width)),
                    bytes.len(),
                ),
            )
        }),
{
}

/// A buffer too short for the size fields that its count announces, or for
/// the count itself, is refused with the length that those would take.
pub proof fn lemma_collection_short(bytes: Seq<u8>, width: nat)
    requires
        width >= 1,
    ensures
        bytes.len() < width ==> collection_frame(bytes, width) == Err::<
            Seq<Seq<u8>>,
            ByteVecError,
        >(not_more_than(width, bytes.len())),
        bytes.len() >= width && bytes.len() - width < le_value(bytes.subrange(0, width as int))
            * width ==> collection_frame(bytes, width) == Err::<Seq<Seq<u8>>, ByteVecError>(
            not_more_than(
                width + le_value(bytes.subrange(0, width as int)) * width,
                bytes.len(),
            ),
        ),
{
}

} // verus!
