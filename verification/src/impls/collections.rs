//! The codecs of the collections: slices, vectors, hash sets and hash maps.
//!
//! A collection is its element count, the length of each element, and then
//! the elements, in the order in which the collection hands them out.
use crate::errors::ByteVecError;
use crate::impls::BVSize;
use crate::layout::{
    add_field_size, collection_frame, collection_layout, lemma_body_within_total,
    lemma_collection_frame_of_layout, lemma_layout_len, lemma_layout_push, lemma_parts_fit, marks,
    marks_body, pack_collection, read_collection_frame, tuple_len, views,
};
use crate::traits::{encodes_as, fits, size_is, ByteDecodable, ByteEncodable, RoundTrip};
use vstd::prelude::*;
use vstd::slice::slice_subrange;

verus! {

/// The encoding of each of `items`.
pub open spec fn bodies_of<T: ByteEncodable>(items: Seq<T>, width: nat) -> Seq<Seq<u8>> {
    Seq::new(items.len(), |i: int| items[i].encoding(width))
}

/// The encoding of a collection that hands out `items` in this order.
pub open spec fn collection_encoding<T: ByteEncodable>(items: Seq<T>, width: nat) -> Seq<u8> {
    collection_layout(bodies_of(items, width), width)
}

/// Whether `body` decodes to some value of `T`.
pub open spec fn decodable<T: ByteDecodable>(body: Seq<u8>, width: nat) -> bool {
    exists|x: T| T::decodes_to(body, width, Ok(x))
}

/// Whether decoding `bodies` one after the other stops at body `i` with the error `e`.
pub open spec fn fails_at<T: ByteDecodable>(
    bodies: Seq<Seq<u8>>,
    width: nat,
    i: int,
    e: ByteVecError,
) -> bool {
    &&& 0 <= i < bodies.len()
    &&& T::decodes_to(bodies[i], width, Err(e))
    &&& forall|j: int| 0 <= j < i ==> #[trigger] decodable::<T>(bodies[j], width)
}

/// Whether `outcome` is what decoding `bodies` one after the other must give:
/// the value of each body, or the error of the first body that has none.
pub open spec fn items_decode_to<T: ByteDecodable>(
    bodies: Seq<Seq<u8>>,
    width: nat,
    outcome: Result<Seq<T>, ByteVecError>,
) -> bool {
    match outcome {
        Ok(items) => {
            &&& items.len() == bodies.len()
            &&& forall|i: int|
                0 <= i < bodies.len() ==> #[trigger] T::decodes_to(bodies[i], width, Ok(items[i]))
        },
        Err(e) => exists|i: int| #[trigger] fails_at::<T>(bodies, width, i, e),
    }
}

/// Whether `outcome` is what decoding `bytes` as a collection of `T` must
/// give: the error of the frame, where the buffer is not laid out as a
/// collection, and else what its element bodies decode to.
pub open spec fn collection_decodes_to<T: ByteDecodable>(
    bytes: Seq<u8>,
    width: nat,
    outcome: Result<Seq<T>, ByteVecError>,
) -> bool {
    match collection_frame(bytes, width) {
        Ok(bodies) => items_decode_to::<T>(bodies, width, outcome),
        Err(e) => outcome matches Err(x) && x == e,
    }
}

/// The elements of a decoded vector, or the error in its place.
pub open spec fn contents<T>(outcome: Result<Vec<T>, ByteVecError>) -> Result<
    Seq<T>,
    ByteVecError,
> {
    match outcome {
        Ok(v) => Ok(v@),
        Err(e) => Err(e),
    }
}

/// The length of the encoding of a collection of `items`, or `None` where
/// `Size` cannot hold it. Every partial sum is checked.
pub fn collection_size<Size, T>(items: &[T]) -> (size: Option<Size>) where
    Size: BVSize,
    T: ByteEncodable,

    ensures
        T::obeys_encoding_spec() ==> size_is(
            size,
            collection_encoding(items@, Size::width()).len(),
        ),
{
    let ghost width = Size::width();
    let ghost all = bodies_of(items@, width);
    let mut acc: Option<Size> = Some(Size::from_usize(0));
    proof {
        lemma_layout_len(all, width);
        crate::endian::lemma_pow256_increases(0, width);
        vstd::arithmetic::div_mod::lemma_small_mod(0, crate::endian::pow256(width));
        assert(all.take(0) =~= Seq::<Seq<u8>>::empty());
        assert(0 * width == 0) by (nonlinear_arith);
    }
    let mut i: usize = 0;
    while i < items.len()
        invariant
            i <= items.len(),
            width == Size::width(),
            all == bodies_of(items@, width),
            T::obeys_encoding_spec() ==> match acc {
                Some(n) => n.value() == tuple_len(all.take(i as int), width),
                None => !fits(tuple_len(all.take(i as int), width), width),
            },
        decreases items.len() - i,
    {
        proof {
            assert(all.take(i as int + 1) =~= all.take(i as int).push(all[i as int]));
            lemma_layout_push(all.take(i as int), all[i as int], width);
        }
        let field = items[i].get_size::<Size>();
        acc = add_field_size(acc, field);
        i += 1;
    }
    assert(all.take(i as int) =~= all);
    match acc {
        Some(fields) => fields.checked_add(Size::get_size_of()),
        None => None,
    }
}

/// The encoding of a collection of `items`, or an overflow error where
/// `Size` cannot hold its length.
pub fn encode_items<Size, T>(items: &[T]) -> (bytes: Result<Vec<u8>, ByteVecError>) where
    Size: BVSize,
    T: ByteEncodable,

    ensures
        T::obeys_encoding_spec() ==> encodes_as(
            bytes,
            collection_encoding(items@, Size::width()),
            Size::width(),
        ),
{
    let ghost width = Size::width();
    let ghost all = bodies_of(items@, width);
    proof {
        lemma_layout_len(all, width);
    }
    let mut bodies: Vec<Vec<u8>> = Vec::with_capacity(items.len());
    let mut i: usize = 0;
    while i < items.len()
        invariant
            i <= items.len(),
            width == Size::width(),
            all == bodies_of(items@, width),
            bodies@.len() == i,
            T::obeys_encoding_spec() ==> views(bodies@) == all.take(i as int),
        decreases items.len() - i,
    {
        match items[i].encode::<Size>() {
            Ok(body) => {
                bodies.push(body);
                assert(T::obeys_encoding_spec() ==> views(bodies@) =~= all.take(i as int + 1));
            },
            Err(e) => {
                proof {
                    lemma_body_within_total(all, i as int);
                    lemma_layout_len(all, width);
                }
                return Err(e);
            },
        }
        i += 1;
    }
    assert(all.take(i as int) =~= all);
    pack_collection::<Size>(&bodies)
}

/// The elements that `bytes` hold as a collection of `T`, in the order in
/// which they are written; the error of the frame or of the first element
/// that does not decode.
pub fn decode_items<Size, T>(bytes: &[u8]) -> (outcome: Result<Vec<T>, ByteVecError>) where
    Size: BVSize,
    T: ByteDecodable,

    ensures
        T::obeys_decoding_spec() ==> collection_decodes_to::<T>(
            bytes@,
            Size::width(),
            contents(outcome),
        ),
{
    let ghost width = Size::width();
    let ghost frame = collection_frame(bytes@, width);
    let bounds = match read_collection_frame::<Size>(bytes) {
        Ok(bounds) => bounds,
        Err(e) => {
            return Err(e);
        },
    };
    let ghost bodies = frame->Ok_0;
    let count = bounds.len() - 1;
    let mut items: Vec<T> = Vec::with_capacity(count);
    let mut i: usize = 0;
    while i < count
        invariant
            i <= count,
            count == bodies.len(),
            width == Size::width(),
            collection_frame(bytes@, width) == Ok::<Seq<Seq<u8>>, ByteVecError>(bodies),
            marks(bounds@, bytes@, bodies),
            items@.len() == i,
            T::obeys_decoding_spec() ==> forall|k: int|
                0 <= k < i ==> #[trigger] T::decodes_to(bodies[k], width, Ok(items@[k])),
        decreases count - i,
    {
        assert(marks_body(bounds@, bytes@, bodies, i as int));
        let body = slice_subrange(bytes, bounds[i], bounds[i + 1]);
        match T::decode::<Size>(body) {
            Ok(item) => {
                items.push(item);
            },
            Err(e) => {
                proof {
                    if T::obeys_decoding_spec() {
                        assert forall|j: int| 0 <= j < i implies #[trigger] decodable::<T>(
                            bodies[j],
                            width,
                        ) by {
                            assert(T::decodes_to(bodies[j], width, Ok(items@[j])));
                        }
                        assert(fails_at::<T>(bodies, width, i as int, e));
                    }
                }
                return Err(e);
            },
        }
        i += 1;
    }
    Ok(items)
}

impl<T: ByteEncodable> ByteEncodable for [T] {
    open spec fn obeys_encoding_spec() -> bool {
        T::obeys_encoding_spec()
    }

    open spec fn encoding(&self, width: nat) -> Seq<u8> {
        collection_encoding(self@, width)
    }

    fn get_size<Size>(&self) -> (size: Option<Size>) where Size: BVSize {
        collection_size::<Size, T>(self)
    }

    fn encode<Size>(&self) -> (bytes: Result<Vec<u8>, ByteVecError>) where Size: BVSize {
        encode_items::<Size, T>(self)
    }
}

impl<T: ByteEncodable> ByteEncodable for Vec<T> {
    open spec fn obeys_encoding_spec() -> bool {
        T::obeys_encoding_spec()
    }

    open spec fn encoding(&self, width: nat) -> Seq<u8> {
        collection_encoding(self@, width)
    }

    fn get_size<Size>(&self) -> (size: Option<Size>) where Size: BVSize {
        collection_size::<Size, T>(self.as_slice())
    }

    fn encode<Size>(&self) -> (bytes: Result<Vec<u8>, ByteVecError>) where Size: BVSize {
        encode_items::<Size, T>(self.as_slice())
    }
}

impl<T: ByteDecodable> ByteDecodable for Vec<T> {
    open spec fn obeys_decoding_spec() -> bool {
        T::obeys_decoding_spec()
    }

    open spec fn decodes_to(
        bytes: Seq<u8>,
        width: nat,
        outcome: Result<Self, ByteVecError>,
    ) -> bool {
        collection_decodes_to::<T>(bytes, width, contents(outcome))
    }

    fn decode<Size>(bytes: &[u8]) -> (outcome: Result<Self, ByteVecError>) where Size: BVSize {
        decode_items::<Size, T>(bytes)
    }
}

/// Whether `copy` holds, item by item, what `items` holds.
pub open spec fn same_items<T: RoundTrip>(items: Seq<T>, copy: Seq<T>) -> bool {
    &&& items.len() == copy.len()
    &&& forall|i: int| 0 <= i < items.len() ==> #[trigger] items[i].same(&copy[i])
}

/// Decoding the encoding of a collection of `items` gives, in the same
/// order, items that hold what they hold.
pub proof fn lemma_items_round_trip<T: RoundTrip>(
    items: Seq<T>,
    width: nat,
    outcome: Result<Seq<T>, ByteVecError>,
)
    requires
        1 <= width <= 8,
        fits(collection_encoding(items, width).len(), width),
        collection_decodes_to::<T>(collection_encoding(items, width), width, outcome),
    ensures
        outcome matches Ok(copy) && same_items(items, copy),
{
    let bodies = bodies_of(items, width);
    lemma_layout_len(bodies, width);
    lemma_parts_fit(bodies, width);
    lemma_collection_frame_of_layout(bodies, width);
    match outcome {
        Ok(copy) => {
            assert forall|i: int| 0 <= i < items.len() implies #[trigger] items[i].same(
                &copy[i],
            ) by {
                assert(T::decodes_to(bodies[i], width, Ok(copy[i])));
                items[i].lemma_round_trip(width, Ok(copy[i]));
            }
        },
        Err(e) => {
            let i = choose|i: int| #[trigger] fails_at::<T>(bodies, width, i, e);
            items[i].lemma_round_trip(width, Err(e));
        },
    }
}

impl<T: RoundTrip> RoundTrip for Vec<T> {
    open spec fn same(&self, other: &Self) -> bool {
        same_items(self@, other@)
    }

    proof fn lemma_round_trip(&self, width: nat, outcome: Result<Self, ByteVecError>) {
        lemma_items_round_trip::<T>(self@, width, contents(outcome));
    }
}

/// A collection whose frame is refused decodes to that refusal, whatever
/// its elements are.
pub proof fn lemma_bad_frame_fails<T: ByteDecodable>(
    bytes: Seq<u8>,
    width: nat,
    outcome: Result<Seq<T>, ByteVecError>,
)
    requires
        collection_frame(bytes, width) is Err,
        collection_decodes_to::<T>(bytes, width, outcome),
    ensures
        outcome == Err::<Seq<T>, ByteVecError>(collection_frame(bytes, width)->Err_0),
{
}

/// A collection whose count of size fields and element lengths add up to
/// more than sizes of `width` bytes can hold is not encoded: the result owed
/// is an overflow error.
pub proof fn lemma_collection_overflow<T: ByteEncodable>(
    items: Seq<T>,
    width: nat,
    bytes: Result<Vec<u8>, ByteVecError>,
)
    requires
        items.len() * width + crate::layout::total_len(bodies_of(items, width))
            > crate::endian::max_of_width(width),
        encodes_as(bytes, collection_encoding(items, width), width),
    ensures
        bytes matches Err(e) && e is OverflowError,
{
    lemma_layout_len(bodies_of(items, width), width);
}

} // verus!
