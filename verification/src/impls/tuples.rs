//! The codecs of tuples of one to twelve fields, and of the unit type.
//!
//! A tuple is the length of each field, in the order of the fields, and then
//! the fields. A record is written as the tuple of its fields.
use crate::errors::ByteVecError;
use crate::impls::collections::decodable;
use crate::impls::primitives::fixed_size;
use crate::impls::BVSize;
use crate::layout::{
    add_field_size, lemma_body_within_total, lemma_layout_len, lemma_layout_push,
    lemma_parts_fit, lemma_tuple_frame_of_layout, marks, marks_body, pack_tuple,
    read_tuple_frame, tuple_frame, tuple_layout, tuple_len, views,
};
use crate::traits::{fits, size_is, ByteDecodable, ByteEncodable, RoundTrip};
use vstd::prelude::*;
use vstd::slice::slice_subrange;

verus! {

/// A tuple with a field too long for `width` is too long for it itself.
pub proof fn lemma_field_too_long(bodies: Seq<Seq<u8>>, i: int, width: nat)
    requires
        0 <= i < bodies.len(),
        !fits(bodies[i].len(), width),
    ensures
        !fits(tuple_len(bodies, width), width),
{
    lemma_body_within_total(bodies, i);
}

/// The size of no fields at all.
fn no_fields<Size>() -> (size: Option<Size>) where Size: BVSize
    ensures
        size_is(size, tuple_len(Seq::<Seq<u8>>::empty(), Size::width())),
{
    assert(0 * Size::width() == 0) by (nonlinear_arith);
    fixed_size::<Size>(0)
}

/// Adds `field` and its size field to the size `acc` of the fields `before` it.
fn add_field<Size, T>(
    acc: Option<Size>,
    field: &T,
    Ghost(before): Ghost<Seq<Seq<u8>>>,
    Ghost(sound): Ghost<bool>,
) -> (sum: Option<Size>) where Size: BVSize, T: ByteEncodable
    requires
        sound ==> size_is(acc, tuple_len(before, Size::width())),
    ensures
        sound && T::obeys_encoding_spec() ==> size_is(
            sum,
            tuple_len(before.push(field.encoding(Size::width())), Size::width()),
        ),
{
    proof {
        lemma_layout_push(before, field.encoding(Size::width()), Size::width());
    }
    add_field_size(acc, field.get_size::<Size>())
}

/// Encodes `field` and puts the result behind `bodies`.
fn push_field<Size, T>(bodies: &mut Vec<Vec<u8>>, field: &T) -> (done: Result<
    (),
    ByteVecError,
>) where Size: BVSize, T: ByteEncodable
    ensures
        T::obeys_encoding_spec() ==> match done {
            Ok(_) => views(final(bodies)@) == views(old(bodies)@).push(
                field.encoding(Size::width()),
            ),
            Err(e) => e is OverflowError && !fits(
                field.encoding(Size::width()).len(),
                Size::width(),
            ),
        },
{
    match field.encode::<Size>() {
        Ok(body) => {
            let ghost before = bodies@;
            bodies.push(body);
            assert(T::obeys_encoding_spec() ==> views(bodies@) =~= views(before).push(
                field.encoding(Size::width()),
            ));
            Ok(())
        },
        Err(e) => Err(e),
    }
}

/// Decodes field `i` of a tuple from its body in `bytes`.
fn decode_field<Size, T>(
    bytes: &[u8],
    bounds: &Vec<usize>,
    i: usize,
    Ghost(bodies): Ghost<Seq<Seq<u8>>>,
) -> (outcome: Result<T, ByteVecError>) where Size: BVSize, T: ByteDecodable
    requires
        marks(bounds@, bytes@, bodies),
        i < bodies.len(),
    ensures
        T::obeys_decoding_spec() ==> T::decodes_to(bodies[i as int], Size::width(), outcome),
{
    assert(marks_body(bounds@, bytes@, bodies, i as int));
    assert(i + 1 < bounds.len());
    T::decode::<Size>(slice_subrange(bytes, bounds[i], bounds[i + 1]))
}

/// The unit value takes no bytes: its size is zero and its encoding is empty.
impl ByteEncodable for () {
    open spec fn obeys_encoding_spec() -> bool {
        true
    }

    open spec fn encoding(&self, width: nat) -> Seq<u8> {
        Seq::empty()
    }

    fn get_size<Size>(&self) -> (size: Option<Size>) where Size: BVSize
        ensures
            size is Some,
    {
        fixed_size::<Size>(0)
    }

    fn encode<Size>(&self) -> (bytes: Result<Vec<u8>, ByteVecError>) where Size: BVSize
        ensures
            bytes is Ok,
    {
        Ok(Vec::new())
    }
}

/// Any buffer decodes to the unit value.
impl ByteDecodable for () {
    open spec fn obeys_decoding_spec() -> bool {
        true
    }

    open spec fn decodes_to(
        bytes: Seq<u8>,
        width: nat,
        outcome: Result<Self, ByteVecError>,
    ) -> bool {
        outcome is Ok
    }

    fn decode<Size>(bytes: &[u8]) -> (outcome: Result<Self, ByteVecError>) where Size: BVSize {
        Ok(())
    }
}

impl RoundTrip for () {
    open spec fn same(&self, other: &Self) -> bool {
        true
    }

    proof fn lemma_round_trip(&self, width: nat, outcome: Result<Self, ByteVecError>) {
    }
}

impl<A: ByteEncodable> ByteEncodable for (A,) {
    open spec fn obeys_encoding_spec() -> bool {
        A::obeys_encoding_spec()
    }

    open spec fn encoding(&self, width: nat) -> Seq<u8> {
        tuple_layout(seq![self.0.encoding(width)], width)
    }

    fn get_size<Size>(&self) -> (size: Option<Size>) where Size: BVSize {
        let ghost width = Size::width();
        let ghost s0 = Seq::<Seq<u8>>::empty();
        let acc = no_fields::<Size>();
        let ghost ok0 = true;
        let acc = add_field::<Size, A>(acc, &self.0, Ghost(s0), Ghost(ok0));
        let ghost s1 = s0.push(self.0.encoding(width));
        proof {
            assert(seq![self.0.encoding(width)] =~= s1);
            lemma_layout_len(s1, width);
        }
        acc
    }

    fn encode<Size>(&self) -> (bytes: Result<Vec<u8>, ByteVecError>) where Size: BVSize {
        let ghost width = Size::width();
        let ghost all = seq![self.0.encoding(width)];
        proof {
            lemma_layout_len(all, width);
        }
        let mut bodies: Vec<Vec<u8>> = Vec::new();
        match push_field::<Size, A>(&mut bodies, &self.0) {
            Ok(_) => {},
            Err(e) => {
                proof {
                    if A::obeys_encoding_spec() {
                        lemma_field_too_long(all, 0, width);
                    }
                }
                return Err(e);
            },
        }
        assert(Self::obeys_encoding_spec() ==> views(bodies@) =~= all);
        pack_tuple::<Size>(&bodies)
    }
}

impl<A: ByteDecodable> ByteDecodable for (A,) {
    open spec fn obeys_decoding_spec() -> bool {
        A::obeys_decoding_spec()
    }

    open spec fn decodes_to(
        bytes: Seq<u8>,
        width: nat,
        outcome: Result<Self, ByteVecError>,
    ) -> bool {
        match tuple_frame(bytes, 1, width) {
            Ok(bodies) => match outcome {
                Ok(fields) => {
                    &&& A::decodes_to(bodies[0], width, Ok(fields.0))
                },
                Err(e) => {
                    ||| A::decodes_to(bodies[0], width, Err(e))
                },
            },
            Err(e) => outcome matches Err(x) && x == e,
        }
    }

    fn decode<Size>(bytes: &[u8]) -> (outcome: Result<Self, ByteVecError>) where Size: BVSize {
        let ghost width = Size::width();
        let bounds = match read_tuple_frame::<Size>(bytes, 1) {
            Ok(bounds) => bounds,
            Err(e) => {
                return Err(e);
            },
        };
        let ghost bodies = tuple_frame(bytes@, 1, width)->Ok_0;
        let f0 = match decode_field::<Size, A>(bytes, &bounds, 0, Ghost(bodies)) {
            Ok(field) => field,
            Err(e) => {
                return Err(e);
            },
        };
        Ok((f0,))
    }
}

impl<A: RoundTrip> RoundTrip for (A,) {
    open spec fn same(&self, other: &Self) -> bool {
        &&& self.0.same(&other.0)
    }

    proof fn lemma_round_trip(&self, width: nat, outcome: Result<Self, ByteVecError>) {
        let all = seq![self.0.encoding(width)];
        lemma_layout_len(all, width);
        lemma_parts_fit(all, width);
        lemma_tuple_frame_of_layout(all, width);
        assert(fits(all[0].len(), width));
        match outcome {
            Ok(fields) => {
                self.0.lemma_round_trip(width, Ok(fields.0));
            },
            Err(e) => {
                if A::decodes_to(all[0], width, Err(e)) {
                    self.0.lemma_round_trip(width, Err(e));
                }
            },
        }
    }
}

impl<A: ByteEncodable, B: ByteEncodable> ByteEncodable for (A, B) {
    open spec fn obeys_encoding_spec() -> bool {
        A::obeys_encoding_spec() && B::obeys_encoding_spec()
    }

    open spec fn encoding(&self, width: nat) -> Seq<u8> {
        tuple_layout(seq![self.0.encoding(width), self.1.encoding(width)], width)
    }

    fn get_size<Size>(&self) -> (size: Option<Size>) where Size: BVSize {
        let ghost width = Size::width();
        let ghost s0 = Seq::<Seq<u8>>::empty();
        let acc = no_fields::<Size>();
        let ghost ok0 = true;
        let acc = add_field::<Size, A>(acc, &self.0, Ghost(s0), Ghost(ok0));
        let ghost s1 = s0.push(self.0.encoding(width));
        let ghost ok1 = ok0 && A::obeys_encoding_spec();
        let acc = add_field::<Size, B>(acc, &self.1, Ghost(s1), Ghost(ok1));
        let ghost s2 = s1.push(self.1.encoding(width));
        proof {
            assert(seq![self.0.encoding(width), self.1.encoding(width)] =~= s2);
            lemma_layout_len(s2, width);
        }
        acc
    }

    fn encode<Size>(&self) -> (bytes: Result<Vec<u8>, ByteVecError>) where Size: BVSize {
        let ghost width = Size::width();
        let ghost all = seq![self.0.encoding(width), self.1.encoding(width)];
        proof {
            lemma_layout_len(all, width);
        }
        let mut bodies: Vec<Vec<u8>> = Vec::new();
        match push_field::<Size, A>(&mut bodies, &self.0) {
            Ok(_) => {},
            Err(e) => {
                proof {
                    if A::obeys_encoding_spec() {
                        lemma_field_too_long(all, 0, width);
                    }
                }
                return Err(e);
            },
        }
        match push_field::<Size, B>(&mut bodies, &self.1) {
            Ok(_) => {},
            Err(e) => {
                proof {
                    if B::obeys_encoding_spec() {
                        lemma_field_too_long(all, 1, width);
                    }
                }
                return Err(e);
            },
        }
        assert(Self::obeys_encoding_spec() ==> views(bodies@) =~= all);
        pack_tuple::<Size>(&bodies)
    }
}

impl<A: ByteDecodable, B: ByteDecodable> ByteDecodable for (A, B) {
    open spec fn obeys_decoding_spec() -> bool {
        A::obeys_decoding_spec() && B::obeys_decoding_spec()
    }

    open spec fn decodes_to(
        bytes: Seq<u8>,
        width: nat,
        outcome: Result<Self, ByteVecError>,
    ) -> bool {
        match tuple_frame(bytes, 2, width) {
            Ok(bodies) => match outcome {
                Ok(fields) => {
                    &&& A::decodes_to(bodies[0], width, Ok(fields.0))
                    &&& B::decodes_to(bodies[1], width, Ok(fields.1))
                },
                Err(e) => {
                    ||| A::decodes_to(bodies[0], width, Err(e))
                    ||| {
                        &&& decodable::<A>(bodies[0], width)
                        &&& B::decodes_to(bodies[1], width, Err(e))
                    }
                },
            },
            Err(e) => outcome matches Err(x) && x == e,
        }
    }

    fn decode<Size>(bytes: &[u8]) -> (outcome: Result<Self, ByteVecError>) where Size: BVSize {
        let ghost width = Size::width();
        let bounds = match read_tuple_frame::<Size>(bytes, 2) {
            Ok(bounds) => bounds,
            Err(e) => {
                return Err(e);
            },
        };
        let ghost bodies = tuple_frame(bytes@, 2, width)->Ok_0;
        let f0 = match decode_field::<Size, A>(bytes, &bounds, 0, Ghost(bodies)) {
            Ok(field) => field,
            Err(e) => {
                return Err(e);
            },
        };
        assert(A::obeys_decoding_spec() ==> decodable::<A>(bodies[0], width));
        let f1 = match decode_field::<Size, B>(bytes, &bounds, 1, Ghost(bodies)) {
            Ok(field) => field,
            Err(e) => {
                return Err(e);
            },
        };
        Ok((f0, f1))
    }
}

impl<A: RoundTrip, B: RoundTrip> RoundTrip for (A, B) {
    open spec fn same(&self, other: &Self) -> bool {
        &&& self.0.same(&other.0)
        &&& self.1.same(&other.1)
    }

    proof fn lemma_round_trip(&self, width: nat, outcome: Result<Self, ByteVecError>) {
        let all = seq![self.0.encoding(width), self.1.encoding(width)];
        lemma_layout_len(all, width);
        lemma_parts_fit(all, width);
        lemma_tuple_frame_of_layout(all, width);
        assert(fits(all[0].len(), width));
        assert(fits(all[1].len(), width));
        match outcome {
            Ok(fields) => {
                self.0.lemma_round_trip(width, Ok(fields.0));
                self.1.lemma_round_trip(width, Ok(fields.1));
            },
            Err(e) => {
                if A::decodes_to(all[0], width, Err(e)) {
                    self.0.lemma_round_trip(width, Err(e));
                } else if B::decodes_to(all[1], width, Err(e)) {
                    self.1.lemma_round_trip(width, Err(e));
                }
            },
        }
    }
}

impl<A: ByteEncodable, B: ByteEncodable, C: ByteEncodable> ByteEncodable for (A, B, C) {
    open spec fn obeys_encoding_spec() -> bool {
        A::obeys_encoding_spec() && B::obeys_encoding_spec() && C::obeys_encoding_spec()
    }

    open spec fn encoding(&self, width: nat) -> Seq<u8> {
        tuple_layout(
            seq![
                self.0.encoding(width),
                self.1.encoding(width),
                self.2.encoding(width),
            ],
            width,
        )
    }

    fn get_size<Size>(&self) -> (size: Option<Size>) where Size: BVSize {
        let ghost width = Size::width();
        let ghost s0 = Seq::<Seq<u8>>::empty();
        let acc = no_fields::<Size>();
        let ghost ok0 = true;
        let acc = add_field::<Size, A>(acc, &self.0, Ghost(s0), Ghost(ok0));
        let ghost s1 = s0.push(self.0.encoding(width));
        let ghost ok1 = ok0 && A::obeys_encoding_spec();
        let acc = add_field::<Size, B>(acc, &self.1, Ghost(s1), Ghost(ok1));
        let ghost s2 = s1.push(self.1.encoding(width));
        let ghost ok2 = ok1 && B::obeys_encoding_spec();
        let acc = add_field::<Size, C>(acc, &self.2, Ghost(s2), Ghost(ok2));
        let ghost s3 = s2.push(self.2.encoding(width));
        proof {
            assert(seq![
                self.0.encoding(width),
                self.1.encoding(width),
                self.2.encoding(width),
            ] =~= s3);
            lemma_layout_len(s3, width);
        }
        acc
    }

    fn encode<Size>(&self) -> (bytes: Result<Vec<u8>, ByteVecError>) where Size: BVSize {
        let ghost width = Size::width();
        let ghost all = seq![
            self.0.encoding(width),
            self.1.encoding(width),
            self.2.encoding(width),
        ];
        proof {
            lemma_layout_len(all, width);
        }
        let mut bodies: Vec<Vec<u8>> = Vec::new();
        match push_field::<Size, A>(&mut bodies, &self.0) {
            Ok(_) => {},
            Err(e) => {
                proof {
                    if A::obeys_encoding_spec() {
                        lemma_field_too_long(all, 0, width);
                    }
                }
                return Err(e);
            },
        }
        match push_field::<Size, B>(&mut bodies, &self.1) {
            Ok(_) => {},
            Err(e) => {
                proof {
                    if B::obeys_encoding_spec() {
                        lemma_field_too_long(all, 1, width);
                    }
                }
                return Err(e);
            },
        }
        match push_field::<Size, C>(&mut bodies, &self.2) {
            Ok(_) => {},
            Err(e) => {
                proof {
                    if C::obeys_encoding_spec() {
                        lemma_field_too_long(all, 2, width);
                    }
                }
                return Err(e);
            },
        }
        assert(Self::obeys_encoding_spec() ==> views(bodies@) =~= all);
        pack_tuple::<Size>(&bodies)
    }
}

impl<A: ByteDecodable, B: ByteDecodable, C: ByteDecodable> ByteDecodable for (A, B, C) {
    open spec fn obeys_decoding_spec() -> bool {
        A::obeys_decoding_spec() && B::obeys_decoding_spec() && C::obeys_decoding_spec()
    }

    open spec fn decodes_to(
        bytes: Seq<u8>,
        width: nat,
        outcome: Result<Self, ByteVecError>,
    ) -> bool {
        match tuple_frame(bytes, 3, width) {
            Ok(bodies) => match outcome {
                Ok(fields) => {
                    &&& A::decodes_to(bodies[0], width, Ok(fields.0))
                    &&& B::decodes_to(bodies[1], width, Ok(fields.1))
                    &&& C::decodes_to(bodies[2], width, Ok(fields.2))
                },
                Err(e) => {
                    ||| A::decodes_to(bodies[0], width, Err(e))
                    ||| {
                        &&& decodable::<A>(bodies[0], width)
                        &&& B::decodes_to(bodies[1], width, Err(e))
                    }
                    ||| {
                        &&& decodable::<A>(bodies[0], width)
                        &&& decodable::<B>(bodies[1], width)
                        &&& C::decodes_to(bodies[2], width, Err(e))
                    }
                },
            },
            Err(e) => outcome matches Err(x) && x == e,
        }
    }

    fn decode<Size>(bytes: &[u8]) -> (outcome: Result<Self, ByteVecError>) where Size: BVSize {
        let ghost width = Size::width();
        let bounds = match read_tuple_frame::<Size>(bytes, 3) {
            Ok(bounds) => bounds,
            Err(e) => {
                return Err(e);
            },
        };
        let ghost bodies = tuple_frame(bytes@, 3, width)->Ok_0;
        let f0 = match decode_field::<Size, A>(bytes, &bounds, 0, Ghost(bodies)) {
            Ok(field) => field,
            Err(e) => {
                return Err(e);
            },
        };
        assert(A::obeys_decoding_spec() ==> decodable::<A>(bodies[0], width));
        let f1 = match decode_field::<Size, B>(bytes, &bounds, 1, Ghost(bodies)) {
            Ok(field) => field,
            Err(e) => {
                return Err(e);
            },
        };
        assert(B::obeys_decoding_spec() ==> decodable::<B>(bodies[1], width));
        let f2 = match decode_field::<Size, C>(bytes, &bounds, 2, Ghost(bodies)) {
            Ok(field) => field,
            Err(e) => {
                return Err(e);
            },
        };
        Ok((f0, f1, f2))
    }
}

impl<A: RoundTrip, B: RoundTrip, C: RoundTrip> RoundTrip for (A, B, C) {
    open spec fn same(&self, other: &Self) -> bool {
        &&& self.0.same(&other.0)
        &&& self.1.same(&other.1)
        &&& self.2.same(&other.2)
    }

    proof fn lemma_round_trip(&self, width: nat, outcome: Result<Self, ByteVecError>) {
        let all = seq![
            self.0.encoding(width),
            self.1.encoding(width),
            self.2.encoding(width),
        ];
        lemma_layout_len(all, width);
        lemma_parts_fit(all, width);
        lemma_tuple_frame_of_layout(all, width);
        assert(fits(all[0].len(), width));
        assert(fits(all[1].len(), width));
        assert(fits(all[2].len(), width));
        match outcome {
            Ok(fields) => {
                self.0.lemma_round_trip(width, Ok(fields.0));
                self.1.lemma_round_trip(width, Ok(fields.1));
                self.2.lemma_round_trip(width, Ok(fields.2));
            },
            Err(e) => {
                if A::decodes_to(all[0], width, Err(e)) {
                    self.0.lemma_round_trip(width, Err(e));
                } else if B::decodes_to(all[1], width, Err(e)) {
                    self.1.lemma_round_trip(width, Err(e));
                } else if C::decodes_to(all[2], width, Err(e)) {
                    self.2.lemma_round_trip(width, Err(e));
                }
            },
        }
    }
}

impl<
    A: ByteEncodable,
    B: ByteEncodable,
    C: ByteEncodable,
    D: ByteEncodable,
> ByteEncodable for (A, B, C, D) {
    open spec fn obeys_encoding_spec() -> bool {
        &&& A::obeys_encoding_spec()
        &&& B::obeys_encoding_spec()
        &&& C::obeys_encoding_spec()
        &&& D::obeys_encoding_spec()
    }

    open spec fn encoding(&self, width: nat) -> Seq<u8> {
        tuple_layout(
            seq![
                self.0.encoding(width),
                self.1.encoding(width),
                self.2.encoding(width),
                self.3.encoding(width),
            ],
            width,
        )
    }

    fn get_size<Size>(&self) -> (size: Option<Size>) where Size: BVSize {
        let ghost width = Size::width();
        let ghost s0 = Seq::<Seq<u8>>::empty();
        let acc = no_fields::<Size>();
        let ghost ok0 = true;
        let acc = add_field::<Size, A>(acc, &self.0, Ghost(s0), Ghost(ok0));
        let ghost s1 = s0.push(self.0.encoding(width));
        let ghost ok1 = ok0 && A::obeys_encoding_spec();
        let acc = add_field::<Size, B>(acc, &self.1, Ghost(s1), Ghost(ok1));
        let ghost s2 = s1.push(self.1.encoding(width));
        let ghost ok2 = ok1 && B::obeys_encoding_spec();
        let acc = add_field::<Size, C>(acc, &self.2, Ghost(s2), Ghost(ok2));
        let ghost s3 = s2.push(self.2.encoding(width));
        let ghost ok3 = ok2 && C::obeys_encoding_spec();
        let acc = add_field::<Size, D>(acc, &self.3, Ghost(s3), Ghost(ok3));
        let ghost s4 = s3.push(self.3.encoding(width));
        proof {
            assert(seq![
                self.0.encoding(width),
                self.1.encoding(width),
                self.2.encoding(width),
                self.3.encoding(width),
            ] =~= s4);
            lemma_layout_len(s4, width);
        }
        acc
    }

    fn encode<Size>(&self) -> (bytes: Result<Vec<u8>, ByteVecError>) where Size: BVSize {
        let ghost width = Size::width();
        let ghost all = seq![
            self.0.encoding(width),
            self.1.encoding(width),
            self.2.encoding(width),
            self.3.encoding(width),
        ];
        proof {
            lemma_layout_len(all, width);
        }
        let mut bodies: Vec<Vec<u8>> = Vec::new();
        match push_field::<Size, A>(&mut bodies, &self.0) {
            Ok(_) => {},
            Err(e) => {
                proof {
                    if A::obeys_encoding_spec() {
                        lemma_field_too_long(all, 0, width);
                    }
                }
                return Err(e);
            },
        }
        match push_field::<Size, B>(&mut bodies, &self.1) {
            Ok(_) => {},
            Err(e) => {
                proof {
                    if B::obeys_encoding_spec() {
                        lemma_field_too_long(all, 1, width);
                    }
                }
                return Err(e);
            },
        }
        match push_field::<Size, C>(&mut bodies, &self.2) {
            Ok(_) => {},
            Err(e) => {
                proof {
                    if C::obeys_encoding_spec() {
                        lemma_field_too_long(all, 2, width);
                    }
                }
                return Err(e);
            },
        }
        match push_field::<Size, D>(&mut bodies, &self.3) {
            Ok(_) => {},
            Err(e) => {
                proof {
                    if D::obeys_encoding_spec() {
                        lemma_field_too_long(all, 3, width);
                    }
                }
                return Err(e);
            },
        }
        assert(Self::obeys_encoding_spec() ==> views(bodies@) =~= all);
        pack_tuple::<Size>(&bodies)
    }
}

impl<
    A: ByteDecodable,
    B: ByteDecodable,
    C: ByteDecodable,
    D: ByteDecodable,
> ByteDecodable for (A, B, C, D) {
    open spec fn obeys_decoding_spec() -> bool {
        &&& A::obeys_decoding_spec()
        &&& B::obeys_decoding_spec()
        &&& C::obeys_decoding_spec()
        &&& D::obeys_decoding_spec()
    }

    open spec fn decodes_to(
        bytes: Seq<u8>,
        width: nat,
        outcome: Result<Self, ByteVecError>,
    ) -> bool {
        match tuple_frame(bytes, 4, width) {
            Ok(bodies) => match outcome {
                Ok(fields) => {
                    &&& A::decodes_to(bodies[0], width, Ok(fields.0))
                    &&& B::decodes_to(bodies[1], width, Ok(fields.1))
                    &&& C::decodes_to(bodies[2], width, Ok(fields.2))
                    &&& D::decodes_to(bodies[3], width, Ok(fields.3))
                },
                Err(e) => {
                    ||| A::decodes_to(bodies[0], width, Err(e))
                    ||| {
                        &&& decodable::<A>(bodies[0], width)
                        &&& B::decodes_to(bodies[1], width, Err(e))
                    }
                    ||| {
                        &&& decodable::<A>(bodies[0], width)
                        &&& decodable::<B>(bodies[1], width)
                        &&& C::decodes_to(bodies[2], width, Err(e))
                    }
                    ||| {
                        &&& decodable::<A>(bodies[0], width)
                        &&& decodable::<B>(bodies[1], width)
                        &&& decodable::<C>(bodies[2], width)
                        &&& D::decodes_to(bodies[3], width, Err(e))
                    }
                },
            },
            Err(e) => outcome matches Err(x) && x == e,
        }
    }

    fn decode<Size>(bytes: &[u8]) -> (outcome: Result<Self, ByteVecError>) where Size: BVSize {
        let ghost width = Size::width();
        let bounds = match read_tuple_frame::<Size>(bytes, 4) {
            Ok(bounds) => bounds,
            Err(e) => {
                return Err(e);
            },
        };
        let ghost bodies = tuple_frame(bytes@, 4, width)->Ok_0;
        let f0 = match decode_field::<Size, A>(bytes, &bounds, 0, Ghost(bodies)) {
            Ok(field) => field,
            Err(e) => {
                return Err(e);
            },
        };
        assert(A::obeys_decoding_spec() ==> decodable::<A>(bodies[0], width));
        let f1 = match decode_field::<Size, B>(bytes, &bounds, 1, Ghost(bodies)) {
            Ok(field) => field,
            Err(e) => {
                return Err(e);
            },
        };
        assert(B::obeys_decoding_spec() ==> decodable::<B>(bodies[1], width));
        let f2 = match decode_field::<Size, C>(bytes, &bounds, 2, Ghost(bodies)) {
            Ok(field) => field,
            Err(e) => {
                return Err(e);
            },
        };
        assert(C::obeys_decoding_spec() ==> decodable::<C>(bodies[2], width));
        let f3 = match decode_field::<Size, D>(bytes, &bounds, 3, Ghost(bodies)) {
            Ok(field) => field,
            Err(e) => {
                return Err(e);
            },
        };
        Ok((f0, f1, f2, f3))
    }
}

impl<A: RoundTrip, B: RoundTrip, C: RoundTrip, D: RoundTrip> RoundTrip for (A, B, C, D) {
    open spec fn same(&self, other: &Self) -> bool {
        &&& self.0.same(&other.0)
        &&& self.1.same(&other.1)
        &&& self.2.same(&other.2)
        &&& self.3.same(&other.3)
    }

    proof fn lemma_round_trip(&self, width: nat, outcome: Result<Self, ByteVecError>) {
        let all = seq![
            self.0.encoding(width),
            self.1.encoding(width),
            self.2.encoding(width),
            self.3.encoding(width),
        ];
        lemma_layout_len(all, width);
        lemma_parts_fit(all, width);
        lemma_tuple_frame_of_layout(all, width);
        assert(fits(all[0].len(), width));
        assert(fits(all[1].len(), width));
        assert(fits(all[2].len(), width));
        assert(fits(all[3].len(), width));
        match outcome {
            Ok(fields) => {
                self.0.lemma_round_trip(width, Ok(fields.0));
                self.1.lemma_round_trip(width, Ok(fields.1));
                self.2.lemma_round_trip(width, Ok(fields.2));
                self.3.lemma_round_trip(width, Ok(fields.3));
            },
            Err(e) => {
                if A::decodes_to(all[0], width, Err(e)) {
                    self.0.lemma_round_trip(width, Err(e));
                } else if B::decodes_to(all[1], width, Err(e)) {
                    self.1.lemma_round_trip(width, Err(e));
                } else if C::decodes_to(all[2], width, Err(e)) {
                    self.2.lemma_round_trip(width, Err(e));
                } else if D::decodes_to(all[3], width, Err(e)) {
                    self.3.lemma_round_trip(width, Err(e));
                }
            },
        }
    }
}

impl<
    A: ByteEncodable,
    B: ByteEncodable,
    C: ByteEncodable,
    D: ByteEncodable,
    E: ByteEncodable,
> ByteEncodable for (A, B, C, D, E) {
    open spec fn obeys_encoding_spec() -> bool {
        &&& A::obeys_encoding_spec()
        &&& B::obeys_encoding_spec()
        &&& C::obeys_encoding_spec()
        &&& D::obeys_encoding_spec()
        &&& E::obeys_encoding_spec()
    }

    open spec fn encoding(&self, width: nat) -> Seq<u8> {
        tuple_layout(
            seq![
                self.0.encoding(width),
                self.1.encoding(width),
                self.2.encoding(width),
                self.3.encoding(width),
                self.4.encoding(width),
            ],
            width,
        )
    }

    fn get_size<Size>(&self) -> (size: Option<Size>) where Size: BVSize {
        let ghost width = Size::width();
        let ghost s0 = Seq::<Seq<u8>>::empty();
        let acc = no_fields::<Size>();
        let ghost ok0 = true;
        let acc = add_field::<Size, A>(acc, &self.0, Ghost(s0), Ghost(ok0));
        let ghost s1 = s0.push(self.0.encoding(width));
        let ghost ok1 = ok0 && A::obeys_encoding_spec();
        let acc = add_field::<Size, B>(acc, &self.1, Ghost(s1), Ghost(ok1));
        let ghost s2 = s1.push(self.1.encoding(width));
        let ghost ok2 = ok1 && B::obeys_encoding_spec();
        let acc = add_field::<Size, C>(acc, &self.2, Ghost(s2), Ghost(ok2));
        let ghost s3 = s2.push(self.2.encoding(width));
        let ghost ok3 = ok2 && C::obeys_encoding_spec();
        let acc = add_field::<Size, D>(acc, &self.3, Ghost(s3), Ghost(ok3));
        let ghost s4 = s3.push(self.3.encoding(width));
        let ghost ok4 = ok3 && D::obeys_encoding_spec();
        let acc = add_field::<Size, E>(acc, &self.4, Ghost(s4), Ghost(ok4));
        let ghost s5 = s4.push(self.4.encoding(width));
        proof {
            assert(seq![
                self.0.encoding(width),
                self.1.encoding(width),
                self.2.encoding(width),
                self.3.encoding(width),
                self.4.encoding(width),
            ] =~= s5);
            lemma_layout_len(s5, width);
        }
        acc
    }

    fn encode<Size>(&self) -> (bytes: Result<Vec<u8>, ByteVecError>) where Size: BVSize {
        let ghost width = Size::width();
        let ghost all = seq![
            self.0.encoding(width),
            self.1.encoding(width),
            self.2.encoding(width),
            self.3.encoding(width),
            self.4.encoding(width),
        ];
        proof {
            lemma_layout_len(all, width);
        }
        let mut bodies: Vec<Vec<u8>> = Vec::new();
        match push_field::<Size, A>(&mut bodies, &self.0) {
            Ok(_) => {},
            Err(e) => {
                proof {
                    if A::obeys_encoding_spec() {
                        lemma_field_too_long(all, 0, width);
                    }
                }
                return Err(e);
            },
        }
        match push_field::<Size, B>(&mut bodies, &self.1) {
            Ok(_) => {},
            Err(e) => {
                proof {
                    if B::obeys_encoding_spec() {
                        lemma_field_too_long(all, 1, width);
                    }
                }
                return Err(e);
            },
        }
        match push_field::<Size, C>(&mut bodies, &self.2) {
            Ok(_) => {},
            Err(e) => {
                proof {
                    if C::obeys_encoding_spec() {
                        lemma_field_too_long(all, 2, width);
                    }
                }
                return Err(e);
            },
        }
        match push_field::<Size, D>(&mut bodies, &self.3) {
            Ok(_) => {},
            Err(e) => {
                proof {
                    if D::obeys_encoding_spec() {
                        lemma_field_too_long(all, 3, width);
                    }
                }
                return Err(e);
            },
        }
        match push_field::<Size, E>(&mut bodies, &self.4) {
            Ok(_) => {},
            Err(e) => {
                proof {
                    if E::obeys_encoding_spec() {
                        lemma_field_too_long(all, 4, width);
                    }
                }
                return Err(e);
            },
        }
        assert(Self::obeys_encoding_spec() ==> views(bodies@) =~= all);
        pack_tuple::<Size>(&bodies)
    }
}

impl<
    A: ByteDecodable,
    B: ByteDecodable,
    C: ByteDecodable,
    D: ByteDecodable,
    E: ByteDecodable,
> ByteDecodable for (A, B, C, D, E) {
    open spec fn obeys_decoding_spec() -> bool {
        &&& A::obeys_decoding_spec()
        &&& B::obeys_decoding_spec()
        &&& C::obeys_decoding_spec()
        &&& D::obeys_decoding_spec()
        &&& E::obeys_decoding_spec()
    }

    open spec fn decodes_to(
        bytes: Seq<u8>,
        width: nat,
        outcome: Result<Self, ByteVecError>,
    ) -> bool {
        match tuple_frame(bytes, 5, width) {
            Ok(bodies) => match outcome {
                Ok(fields) => {
                    &&& A::decodes_to(bodies[0], width, Ok(fields.0))
                    &&& B::decodes_to(bodies[1], width, Ok(fields.1))
                    &&& C::decodes_to(bodies[2], width, Ok(fields.2))
                    &&& D::decodes_to(bodies[3], width, Ok(fields.3))
                    &&& E::decodes_to(bodies[4], width, Ok(fields.4))
                },
                Err(e) => {
                    ||| A::decodes_to(bodies[0], width, Err(e))
                    ||| {
                        &&& decodable::<A>(bodies[0], width)
                        &&& B::decodes_to(bodies[1], width, Err(e))
                    }
                    ||| {
                        &&& decodable::<A>(bodies[0], width)
                        &&& decodable::<B>(bodies[1], width)
                        &&& C::decodes_to(bodies[2], width, Err(e))
                    }
                    ||| {
                        &&& decodable::<A>(bodies[0], width)
                        &&& decodable::<B>(bodies[1], width)
                        &&& decodable::<C>(bodies[2], width)
                        &&& D::decodes_to(bodies[3], width, Err(e))
                    }
                    ||| {
                        &&& decodable::<A>(bodies[0], width)
                        &&& decodable::<B>(bodies[1], width)
                        &&& decodable::<C>(bodies[2], width)
                        &&& decodable::<D>(bodies[3], width)
                        &&& E::decodes_to(bodies[4], width, Err(e))
                    }
                },
            },
            Err(e) => outcome matches Err(x) && x == e,
        }
    }

    fn decode<Size>(bytes: &[u8]) -> (outcome: Result<Self, ByteVecError>) where Size: BVSize {
        let ghost width = Size::width();
        let bounds = match read_tuple_frame::<Size>(bytes, 5) {
            Ok(bounds) => bounds,
            Err(e) => {
                return Err(e);
            },
        };
        let ghost bodies = tuple_frame(bytes@, 5, width)->Ok_0;
        let f0 = match decode_field::<Size, A>(bytes, &bounds, 0, Ghost(bodies)) {
            Ok(field) => field,
            Err(e) => {
                return Err(e);
            },
        };
        assert(A::obeys_decoding_spec() ==> decodable::<A>(bodies[0], width));
        let f1 = match decode_field::<Size, B>(bytes, &bounds, 1, Ghost(bodies)) {
            Ok(field) => field,
            Err(e) => {
                return Err(e);
            },
        };
        assert(B::obeys_decoding_spec() ==> decodable::<B>(bodies[1], width));
        let f2 = match decode_field::<Size, C>(bytes, &bounds, 2, Ghost(bodies)) {
            Ok(field) => field,
            Err(e) => {
                return Err(e);
            },
        };
        assert(C::obeys_decoding_spec() ==> decodable::<C>(bodies[2], width));
        let f3 = match decode_field::<Size, D>(bytes, &bounds, 3, Ghost(bodies)) {
            Ok(field) => field,
            Err(e) => {
                return Err(e);
            },
        };
        assert(D::obeys_decoding_spec() ==> decodable::<D>(bodies[3], width));
        let f4 = match decode_field::<Size, E>(bytes, &bounds, 4, Ghost(bodies)) {
            Ok(field) => field,
            Err(e) => {
                return Err(e);
            },
        };
        Ok((f0, f1, f2, f3, f4))
    }
}

impl<
    A: RoundTrip,
    B: RoundTrip,
    C: RoundTrip,
    D: RoundTrip,
    E: RoundTrip,
> RoundTrip for (A, B, C, D, E) {
    open spec fn same(&self, other: &Self) -> bool {
        &&& self.0.same(&other.0)
        &&& self.1.same(&other.1)
        &&& self.2.same(&other.2)
        &&& self.3.same(&other.3)
        &&& self.4.same(&other.4)
    }

    proof fn lemma_round_trip(&self, width: nat, outcome: Result<Self, ByteVecError>) {
        let all = seq![
            self.0.encoding(width),
            self.1.encoding(width),
            self.2.encoding(width),
            self.3.encoding(width),
            self.4.encoding(width),
        ];
        lemma_layout_len(all, width);
        lemma_parts_fit(all, width);
        lemma_tuple_frame_of_layout(all, width);
        assert(fits(all[0].len(), width));
        assert(fits(all[1].len(), width));
        assert(fits(all[2].len(), width));
        assert(fits(all[3].len(), width));
        assert(fits(all[4].len(), width));
        match outcome {
            Ok(fields) => {
                self.0.lemma_round_trip(width, Ok(fields.0));
                self.1.lemma_round_trip(width, Ok(fields.1));
                self.2.lemma_round_trip(width, Ok(fields.2));
                self.3.lemma_round_trip(width, Ok(fields.3));
                self.4.lemma_round_trip(width, Ok(fields.4));
            },
            Err(e) => {
                if A::decodes_to(all[0], width, Err(e)) {
                    self.0.lemma_round_trip(width, Err(e));
                } else if B::decodes_to(all[1], width, Err(e)) {
                    self.1.lemma_round_trip(width, Err(e));
                } else if C::decodes_to(all[2], width, Err(e)) {
                    self.2.lemma_round_trip(width, Err(e));
                } else if D::decodes_to(all[3], width, Err(e)) {
                    self.3.lemma_round_trip(width, Err(e));
                } else if E::decodes_to(all[4], width, Err(e)) {
                    self.4.lemma_round_trip(width, Err(e));
                }
            },
        }
    }
}

impl<
    A: ByteEncodable,
    B: ByteEncodable,
    C: ByteEncodable,
    D: ByteEncodable,
    E: ByteEncodable,
    F: ByteEncodable,
> ByteEncodable for (A, B, C, D, E, F) {
    open spec fn obeys_encoding_spec() -> bool {
        &&& A::obeys_encoding_spec()
        &&& B::obeys_encoding_spec()
        &&& C::obeys_encoding_spec()
        &&& D::obeys_encoding_spec()
        &&& E::obeys_encoding_spec()
        &&& F::obeys_encoding_spec()
    }

    open spec fn encoding(&self, width: nat) -> Seq<u8> {
        tuple_layout(
            seq![
                self.0.encoding(width),
                self.1.encoding(width),
                self.2.encoding(width),
                self.3.encoding(width),
                self.4.encoding(width),
                self.5.encoding(width),
            ],
            width,
        )
    }

    fn get_size<Size>(&self) -> (size: Option<Size>) where Size: BVSize {
        let ghost width = Size::width();
        let ghost s0 = Seq::<Seq<u8>>::empty();
        let acc = no_fields::<Size>();
        let ghost ok0 = true;
        let acc = add_field::<Size, A>(acc, &self.0, Ghost(s0), Ghost(ok0));
        let ghost s1 = s0.push(self.0.encoding(width));
        let ghost ok1 = ok0 && A::obeys_encoding_spec();
        let acc = add_field::<Size, B>(acc, &self.1, Ghost(s1), Ghost(ok1));
        let ghost s2 = s1.push(self.1.encoding(width));
        let ghost ok2 = ok1 && B::obeys_encoding_spec();
        let acc = add_field::<Size, C>(acc, &self.2, Ghost(s2), Ghost(ok2));
        let ghost s3 = s2.push(self.2.encoding(width));
        let ghost ok3 = ok2 && C::obeys_encoding_spec();
        let acc = add_field::<Size, D>(acc, &self.3, Ghost(s3), Ghost(ok3));
        let ghost s4 = s3.push(self.3.encoding(width));
        let ghost ok4 = ok3 && D::obeys_encoding_spec();
        let acc = add_field::<Size, E>(acc, &self.4, Ghost(s4), Ghost(ok4));
        let ghost s5 = s4.push(self.4.encoding(width));
        let ghost ok5 = ok4 && E::obeys_encoding_spec();
        let acc = add_field::<Size, F>(acc, &self.5, Ghost(s5), Ghost(ok5));
        let ghost s6 = s5.push(self.5.encoding(width));
        proof {
            assert(seq![
                self.0.encoding(width),
                self.1.encoding(width),
                self.2.encoding(width),
                self.3.encoding(width),
                self.4.encoding(width),
                self.5.encoding(width),
            ] =~= s6);
            lemma_layout_len(s6, width);
        }
        acc
    }

    fn encode<Size>(&self) -> (bytes: Result<Vec<u8>, ByteVecError>) where Size: BVSize {
        let ghost width = Size::width();
        let ghost all = seq![
            self.0.encoding(width),
            self.1.encoding(width),
            self.2.encoding(width),
            self.3.encoding(width),
            self.4.encoding(width),
            self.5.encoding(width),
        ];
        proof {
            lemma_layout_len(all, width);
        }
        let mut bodies: Vec<Vec<u8>> = Vec::new();
        match push_field::<Size, A>(&mut bodies, &self.0) {
            Ok(_) => {},
            Err(e) => {
                proof {
                    if A::obeys_encoding_spec() {
                        lemma_field_too_long(all, 0, width);
                    }
                }
                return Err(e);
            },
        }
        match push_field::<Size, B>(&mut bodies, &self.1) {
            Ok(_) => {},
            Err(e) => {
                proof {
                    if B::obeys_encoding_spec() {
                        lemma_field_too_long(all, 1, width);
                    }
                }
                return Err(e);
            },
        }
        match push_field::<Size, C>(&mut bodies, &self.2) {
            Ok(_) => {},
            Err(e) => {
                proof {
                    if C::obeys_encoding_spec() {
                        lemma_field_too_long(all, 2, width);
                    }
                }
                return Err(e);
            },
        }
        match push_field::<Size, D>(&mut bodies, &self.3) {
            Ok(_) => {},
            Err(e) => {
                proof {
                    if D::obeys_encoding_spec() {
                        lemma_field_too_long(all, 3, width);
                    }
                }
                return Err(e);
            },
        }
        match push_field::<Size, E>(&mut bodies, &self.4) {
            Ok(_) => {},
            Err(e) => {
                proof {
                    if E::obeys_encoding_spec() {
                        lemma_field_too_long(all, 4, width);
                    }
                }
                return Err(e);
            },
        }
        match push_field::<Size, F>(&mut bodies, &self.5) {
            Ok(_) => {},
            Err(e) => {
                proof {
                    if F::obeys_encoding_spec() {
                        lemma_field_too_long(all, 5, width);
                    }
                }
                return Err(e);
            },
        }
        assert(Self::obeys_encoding_spec() ==> views(bodies@) =~= all);
        pack_tuple::<Size>(&bodies)
    }
}

impl<
    A: ByteDecodable,
    B: ByteDecodable,
    C: ByteDecodable,
    D: ByteDecodable,
    E: ByteDecodable,
    F: ByteDecodable,
> ByteDecodable for (A, B, C, D, E, F) {
    open spec fn obeys_decoding_spec() -> bool {
        &&& A::obeys_decoding_spec()
        &&& B::obeys_decoding_spec()
        &&& C::obeys_decoding_spec()
        &&& D::obeys_decoding_spec()
        &&& E::obeys_decoding_spec()
        &&& F::obeys_decoding_spec()
    }

    open spec fn decodes_to(
        bytes: Seq<u8>,
        width: nat,
        outcome: Result<Self, ByteVecError>,
    ) -> bool {
        match tuple_frame(bytes, 6, width) {
            Ok(bodies) => match outcome {
                Ok(fields) => {
                    &&& A::decodes_to(bodies[0], width, Ok(fields.0))
                    &&& B::decodes_to(bodies[1], width, Ok(fields.1))
                    &&& C::decodes_to(bodies[2], width, Ok(fields.2))
                    &&& D::decodes_to(bodies[3], width, Ok(fields.3))
                    &&& E::decodes_to(bodies[4], width, Ok(fields.4))
                    &&& F::decodes_to(bodies[5], width, Ok(fields.5))
                },
                Err(e) => {
                    ||| A::decodes_to(bodies[0], width, Err(e))
                    ||| {
                        &&& decodable::<A>(bodies[0], width)
                        &&& B::decodes_to(bodies[1], width, Err(e))
                    }
                    ||| {
                        &&& decodable::<A>(bodies[0], width)
                        &&& decodable::<B>(bodies[1], width)
                        &&& C::decodes_to(bodies[2], width, Err(e))
                    }
                    ||| {
                        &&& decodable::<A>(bodies[0], width)
                        &&& decodable::<B>(bodies[1], width)
                        &&& decodable::<C>(bodies[2], width)
                        &&& D::decodes_to(bodies[3], width, Err(e))
                    }
                    ||| {
                        &&& decodable::<A>(bodies[0], width)
                        &&& decodable::<B>(bodies[1], width)
                        &&& decodable::<C>(bodies[2], width)
                        &&& decodable::<D>(bodies[3], width)
                        &&& E::decodes_to(bodies[4], width, Err(e))
                    }
                    ||| {
                        &&& decodable::<A>(bodies[0], width)
                        &&& decodable::<B>(bodies[1], width)
                        &&& decodable::<C>(bodies[2], width)
                        &&& decodable::<D>(bodies[3], width)
                        &&& decodable::<E>(bodies[4], width)
                        &&& F::decodes_to(bodies[5], width, Err(e))
                    }
                },
            },
            Err(e) => outcome matches Err(x) && x == e,
        }
    }

    fn decode<Size>(bytes: &[u8]) -> (outcome: Result<Self, ByteVecError>) where Size: BVSize {
        let ghost width = Size::width();
        let bounds = match read_tuple_frame::<Size>(bytes, 6) {
            Ok(bounds) => bounds,
            Err(e) => {
                return Err(e);
            },
        };
        let ghost bodies = tuple_frame(bytes@, 6, width)->Ok_0;
        let f0 = match decode_field::<Size, A>(bytes, &bounds, 0, Ghost(bodies)) {
            Ok(field) => field,
            Err(e) => {
                return Err(e);
            },
        };
        assert(A::obeys_decoding_spec() ==> decodable::<A>(bodies[0], width));
        let f1 = match decode_field::<Size, B>(bytes, &bounds, 1, Ghost(bodies)) {
            Ok(field) => field,
            Err(e) => {
                return Err(e);
            },
        };
        assert(B::obeys_decoding_spec() ==> decodable::<B>(bodies[1], width));
        let f2 = match decode_field::<Size, C>(bytes, &bounds, 2, Ghost(bodies)) {
            Ok(field) => field,
            Err(e) => {
                return Err(e);
            },
        };
        assert(C::obeys_decoding_spec() ==> decodable::<C>(bodies[2], width));
        let f3 = match decode_field::<Size, D>(bytes, &bounds, 3, Ghost(bodies)) {
            Ok(field) => field,
            Err(e) => {
                return Err(e);
            },
        };
        assert(D::obeys_decoding_spec() ==> decodable::<D>(bodies[3], width));
        let f4 = match decode_field::<Size, E>(bytes, &bounds, 4, Ghost(bodies)) {
            Ok(field) => field,
            Err(e) => {
                return Err(e);
            },
        };
        assert(E::obeys_decoding_spec() ==> decodable::<E>(bodies[4], width));
        let f5 = match decode_field::<Size, F>(bytes, &bounds, 5, Ghost(bodies)) {
            Ok(field) => field,
            Err(e) => {
                return Err(e);
            },
        };
        Ok((f0, f1, f2, f3, f4, f5))
    }
}

impl<
    A: RoundTrip,
    B: RoundTrip,
    C: RoundTrip,
    D: RoundTrip,
    E: RoundTrip,
    F: RoundTrip,
> RoundTrip for (A, B, C, D, E, F) {
    open spec fn same(&self, other: &Self) -> bool {
        &&& self.0.same(&other.0)
        &&& self.1.same(&other.1)
        &&& self.2.same(&other.2)
        &&& self.3.same(&other.3)
        &&& self.4.same(&other.4)
        &&& self.5.same(&other.5)
    }

    proof fn lemma_round_trip(&self, width: nat, outcome: Result<Self, ByteVecError>) {
        let all = seq![
            self.0.encoding(width),
            self.1.encoding(width),
            self.2.encoding(width),
            self.3.encoding(width),
            self.4.encoding(width),
            self.5.encoding(width),
        ];
        lemma_layout_len(all, width);
        lemma_parts_fit(all, width);
        lemma_tuple_frame_of_layout(all, width);
        assert(fits(all[0].len(), width));
        assert(fits(all[1].len(), width));
        assert(fits(all[2].len(), width));
        assert(fits(all[3].len(), width));
        assert(fits(all[4].len(), width));
        assert(fits(all[5].len(), width));
        match outcome {
            Ok(fields) => {
                self.0.lemma_round_trip(width, Ok(fields.0));
                self.1.lemma_round_trip(width, Ok(fields.1));
                self.2.lemma_round_trip(width, Ok(fields.2));
                self.3.lemma_round_trip(width, Ok(fields.3));
                self.4.lemma_round_trip(width, Ok(fields.4));
                self.5.lemma_round_trip(width, Ok(fields.5));
            },
            Err(e) => {
                if A::decodes_to(all[0], width, Err(e)) {
                    self.0.lemma_round_trip(width, Err(e));
                } else if B::decodes_to(all[1], width, Err(e)) {
                    self.1.lemma_round_trip(width, Err(e));
                } else if C::decodes_to(all[2], width, Err(e)) {
                    self.2.lemma_round_trip(width, Err(e));
                } else if D::decodes_to(all[3], width, Err(e)) {
                    self.3.lemma_round_trip(width, Err(e));
                } else if E::decodes_to(all[4], width, Err(e)) {
                    self.4.lemma_round_trip(width, Err(e));
                } else if F::decodes_to(all[5], width, Err(e)) {
                    self.5.lemma_round_trip(width, Err(e));
                }
            },
        }
    }
}

impl<
    A: ByteEncodable,
    B: ByteEncodable,
    C: ByteEncodable,
    D: ByteEncodable,
    E: ByteEncodable,
    F: ByteEncodable,
    G: ByteEncodable,
> ByteEncodable for (A, B, C, D, E, F, G) {
    open spec fn obeys_encoding_spec() -> bool {
        &&& A::obeys_encoding_spec()
        &&& B::obeys_encoding_spec()
        &&& C::obeys_encoding_spec()
        &&& D::obeys_encoding_spec()
        &&& E::obeys_encoding_spec()
        &&& F::obeys_encoding_spec()
        &&& G::obeys_encoding_spec()
    }

    open spec fn encoding(&self, width: nat) -> Seq<u8> {
        tuple_layout(
            seq![
                self.0.encoding(width),
                self.1.encoding(width),
                self.2.encoding(width),
                self.3.encoding(width),
                self.4.encoding(width),
                self.5.encoding(width),
                self.6.encoding(width),
            ],
            width,
        )
    }

    fn get_size<Size>(&self) -> (size: Option<Size>) where Size: BVSize {
        let ghost width = Size::width();
        let ghost s0 = Seq::<Seq<u8>>::empty();
        let acc = no_fields::<Size>();
        let ghost ok0 = true;
        let acc = add_field::<Size, A>(acc, &self.0, Ghost(s0), Ghost(ok0));
        let ghost s1 = s0.push(self.0.encoding(width));
        let ghost ok1 = ok0 && A::obeys_encoding_spec();
        let acc = add_field::<Size, B>(acc, &self.1, Ghost(s1), Ghost(ok1));
        let ghost s2 = s1.push(self.1.encoding(width));
        let ghost ok2 = ok1 && B::obeys_encoding_spec();
        let acc = add_field::<Size, C>(acc, &self.2, Ghost(s2), Ghost(ok2));
        let ghost s3 = s2.push(self.2.encoding(width));
        let ghost ok3 = ok2 && C::obeys_encoding_spec();
        let acc = add_field::<Size, D>(acc, &self.3, Ghost(s3), Ghost(ok3));
        let ghost s4 = s3.push(self.3.encoding(width));
        let ghost ok4 = ok3 && D::obeys_encoding_spec();
        let acc = add_field::<Size, E>(acc, &self.4, Ghost(s4), Ghost(ok4));
        let ghost s5 = s4.push(self.4.encoding(width));
        let ghost ok5 = ok4 && E::obeys_encoding_spec();
        let acc = add_field::<Size, F>(acc, &self.5, Ghost(s5), Ghost(ok5));
        let ghost s6 = s5.push(self.5.encoding(width));
        let ghost ok6 = ok5 && F::obeys_encoding_spec();
        let acc = add_field::<Size, G>(acc, &self.6, Ghost(s6), Ghost(ok6));
        let ghost s7 = s6.push(self.6.encoding(width));
        proof {
            assert(seq![
                self.0.encoding(width),
                self.1.encoding(width),
                self.2.encoding(width),
                self.3.encoding(width),
                self.4.encoding(width),
                self.5.encoding(width),
                self.6.encoding(width),
            ] =~= s7);
            lemma_layout_len(s7, width);
        }
        acc
    }

    fn encode<Size>(&self) -> (bytes: Result<Vec<u8>, ByteVecError>) where Size: BVSize {
        let ghost width = Size::width();
        let ghost all = seq![
            self.0.encoding(width),
            self.1.encoding(width),
            self.2.encoding(width),
            self.3.encoding(width),
            self.4.encoding(width),
            self.5.encoding(width),
            self.6.encoding(width),
        ];
        proof {
            lemma_layout_len(all, width);
        }
        let mut bodies: Vec<Vec<u8>> = Vec::new();
        match push_field::<Size, A>(&mut bodies, &self.0) {
            Ok(_) => {},
            Err(e) => {
                proof {
                    if A::obeys_encoding_spec() {
                        lemma_field_too_long(all, 0, width);
                    }
                }
                return Err(e);
            },
        }
        match push_field::<Size, B>(&mut bodies, &self.1) {
            Ok(_) => {},
            Err(e) => {
                proof {
                    if B::obeys_encoding_spec() {
                        lemma_field_too_long(all, 1, width);
                    }
                }
                return Err(e);
            },
        }
        match push_field::<Size, C>(&mut bodies, &self.2) {
            Ok(_) => {},
            Err(e) => {
                proof {
                    if C::obeys_encoding_spec() {
                        lemma_field_too_long(all, 2, width);
                    }
                }
                return Err(e);
            },
        }
        match push_field::<Size, D>(&mut bodies, &self.3) {
            Ok(_) => {},
            Err(e) => {
                proof {
                    if D::obeys_encoding_spec() {
                        lemma_field_too_long(all, 3, width);
                    }
                }
                return Err(e);
            },
        }
        match push_field::<Size, E>(&mut bodies, &self.4) {
            Ok(_) => {},
            Err(e) => {
                proof {
                    if E::obeys_encoding_spec() {
                        lemma_field_too_long(all, 4, width);
                    }
                }
                return Err(e);
            },
        }
        match push_field::<Size, F>(&mut bodies, &self.5) {
            Ok(_) => {},
            Err(e) => {
                proof {
                    if F::obeys_encoding_spec() {
                        lemma_field_too_long(all, 5, width);
                    }
                }
                return Err(e);
            },
        }
        match push_field::<Size, G>(&mut bodies, &self.6) {
            Ok(_) => {},
            Err(e) => {
                proof {
                    if G::obeys_encoding_spec() {
                        lemma_field_too_long(all, 6, width);
                    }
                }
                return Err(e);
            },
        }
        assert(Self::obeys_encoding_spec() ==> views(bodies@) =~= all);
        pack_tuple::<Size>(&bodies)
    }
}

impl<
    A: ByteDecodable,
    B: ByteDecodable,
    C: ByteDecodable,
    D: ByteDecodable,
    E: ByteDecodable,
    F: ByteDecodable,
    G: ByteDecodable,
> ByteDecodable for (A, B, C, D, E, F, G) {
    open spec fn obeys_decoding_spec() -> bool {
        &&& A::obeys_decoding_spec()
        &&& B::obeys_decoding_spec()
        &&& C::obeys_decoding_spec()
        &&& D::obeys_decoding_spec()
        &&& E::obeys_decoding_spec()
        &&& F::obeys_decoding_spec()
        &&& G::obeys_decoding_spec()
    }

    open spec fn decodes_to(
        bytes: Seq<u8>,
        width: nat,
        outcome: Result<Self, ByteVecError>,
    ) -> bool {
        match tuple_frame(bytes, 7, width) {
            Ok(bodies) => match outcome {
                Ok(fields) => {
                    &&& A::decodes_to(bodies[0], width, Ok(fields.0))
                    &&& B::decodes_to(bodies[1], width, Ok(fields.1))
                    &&& C::decodes_to(bodies[2], width, Ok(fields.2))
                    &&& D::decodes_to(bodies[3], width, Ok(fields.3))
                    &&& E::decodes_to(bodies[4], width, Ok(fields.4))
                    &&& F::decodes_to(bodies[5], width, Ok(fields.5))
                    &&& G::decodes_to(bodies[6], width, Ok(fields.6))
                },
                Err(e) => {
                    ||| A::decodes_to(bodies[0], width, Err(e))
                    ||| {
                        &&& decodable::<A>(bodies[0], width)
                        &&& B::decodes_to(bodies[1], width, Err(e))
                    }
                    ||| {
                        &&& decodable::<A>(bodies[0], width)
                        &&& decodable::<B>(bodies[1], width)
                        &&& C::decodes_to(bodies[2], width, Err(e))
                    }
                    ||| {
                        &&& decodable::<A>(bodies[0], width)
                        &&& decodable::<B>(bodies[1], width)
                        &&& decodable::<C>(bodies[2], width)
                        &&& D::decodes_to(bodies[3], width, Err(e))
                    }
                    ||| {
                        &&& decodable::<A>(bodies[0], width)
                        &&& decodable::<B>(bodies[1], width)
                        &&& decodable::<C>(bodies[2], width)
                        &&& decodable::<D>(bodies[3], width)
                        &&& E::decodes_to(bodies[4], width, Err(e))
                    }
                    ||| {
                        &&& decodable::<A>(bodies[0], width)
                        &&& decodable::<B>(bodies[1], width)
                        &&& decodable::<C>(bodies[2], width)
                        &&& decodable::<D>(bodies[3], width)
                        &&& decodable::<E>(bodies[4], width)
                        &&& F::decodes_to(bodies[5], width, Err(e))
                    }
                    ||| {
                        &&& decodable::<A>(bodies[0], width)
                        &&& decodable::<B>(bodies[1], width)
                        &&& decodable::<C>(bodies[2], width)
                        &&& decodable::<D>(bodies[3], width)
                        &&& decodable::<E>(bodies[4], width)
                        &&& decodable::<F>(bodies[5], width)
                        &&& G::decodes_to(bodies[6], width, Err(e))
                    }
                },
            },
            Err(e) => outcome matches Err(x) && x == e,
        }
    }

    fn decode<Size>(bytes: &[u8]) -> (outcome: Result<Self, ByteVecError>) where Size: BVSize {
        let ghost width = Size::width();
        let bounds = match read_tuple_frame::<Size>(bytes, 7) {
            Ok(bounds) => bounds,
            Err(e) => {
                return Err(e);
            },
        };
        let ghost bodies = tuple_frame(bytes@, 7, width)->Ok_0;
        let f0 = match decode_field::<Size, A>(bytes, &bounds, 0, Ghost(bodies)) {
            Ok(field) => field,
            Err(e) => {
                return Err(e);
            },
        };
        assert(A::obeys_decoding_spec() ==> decodable::<A>(bodies[0], width));
        let f1 = match decode_field::<Size, B>(bytes, &bounds, 1, Ghost(bodies)) {
            Ok(field) => field,
            Err(e) => {
                return Err(e);
            },
        };
        assert(B::obeys_decoding_spec() ==> decodable::<B>(bodies[1], width));
        let f2 = match decode_field::<Size, C>(bytes, &bounds, 2, Ghost(bodies)) {
            Ok(field) => field,
            Err(e) => {
                return Err(e);
            },
        };
        assert(C::obeys_decoding_spec() ==> decodable::<C>(bodies[2], width));
        let f3 = match decode_field::<Size, D>(bytes, &bounds, 3, Ghost(bodies)) {
            Ok(field) => field,
            Err(e) => {
                return Err(e);
            },
        };
        assert(D::obeys_decoding_spec() ==> decodable::<D>(bodies[3], width));
        let f4 = match decode_field::<Size, E>(bytes, &bounds, 4, Ghost(bodies)) {
            Ok(field) => field,
            Err(e) => {
                return Err(e);
            },
        };
        assert(E::obeys_decoding_spec() ==> decodable::<E>(bodies[4], width));
        let f5 = match decode_field::<Size, F>(bytes, &bounds, 5, Ghost(bodies)) {
            Ok(field) => field,
            Err(e) => {
                return Err(e);
            },
        };
        assert(F::obeys_decoding_spec() ==> decodable::<F>(bodies[5], width));
        let f6 = match decode_field::<Size, G>(bytes, &bounds, 6, Ghost(bodies)) {
            Ok(field) => field,
            Err(e) => {
                return Err(e);
            },
        };
        Ok((f0, f1, f2, f3, f4, f5, f6))
    }
}

impl<
    A: RoundTrip,
    B: RoundTrip,
    C: RoundTrip,
    D: RoundTrip,
    E: RoundTrip,
    F: RoundTrip,
    G: RoundTrip,
> RoundTrip for (A, B, C, D, E, F, G) {
    open spec fn same(&self, other: &Self) -> bool {
        &&& self.0.same(&other.0)
        &&& self.1.same(&other.1)
        &&& self.2.same(&other.2)
        &&& self.3.same(&other.3)
        &&& self.4.same(&other.4)
        &&& self.5.same(&other.5)
        &&& self.6.same(&other.6)
    }

    proof fn lemma_round_trip(&self, width: nat, outcome: Result<Self, ByteVecError>) {
        let all = seq![
            self.0.encoding(width),
            self.1.encoding(width),
            self.2.encoding(width),
            self.3.encoding(width),
            self.4.encoding(width),
            self.5.encoding(width),
            self.6.encoding(width),
        ];
        lemma_layout_len(all, width);
        lemma_parts_fit(all, width);
        lemma_tuple_frame_of_layout(all, width);
        assert(fits(all[0].len(), width));
        assert(fits(all[1].len(), width));
        assert(fits(all[2].len(), width));
        assert(fits(all[3].len(), width));
        assert(fits(all[4].len(), width));
        assert(fits(all[5].len(), width));
        assert(fits(all[6].len(), width));
        match outcome {
            Ok(fields) => {
                self.0.lemma_round_trip(width, Ok(fields.0));
                self.1.lemma_round_trip(width, Ok(fields.1));
                self.2.lemma_round_trip(width, Ok(fields.2));
                self.3.lemma_round_trip(width, Ok(fields.3));
                self.4.lemma_round_trip(width, Ok(fields.4));
                self.5.lemma_round_trip(width, Ok(fields.5));
                self.6.lemma_round_trip(width, Ok(fields.6));
            },
            Err(e) => {
                if A::decodes_to(all[0], width, Err(e)) {
                    self.0.lemma_round_trip(width, Err(e));
                } else if B::decodes_to(all[1], width, Err(e)) {
                    self.1.lemma_round_trip(width, Err(e));
                } else if C::decodes_to(all[2], width, Err(e)) {
                    self.2.lemma_round_trip(width, Err(e));
                } else if D::decodes_to(all[3], width, Err(e)) {
                    self.3.lemma_round_trip(width, Err(e));
                } else if E::decodes_to(all[4], width, Err(e)) {
                    self.4.lemma_round_trip(width, Err(e));
                } else if F::decodes_to(all[5], width, Err(e)) {
                    self.5.lemma_round_trip(width, Err(e));
                } else if G::decodes_to(all[6], width, Err(e)) {
                    self.6.lemma_round_trip(width, Err(e));
                }
            },
        }
    }
}

impl<
    A: ByteEncodable,
    B: ByteEncodable,
    C: ByteEncodable,
    D: ByteEncodable,
    E: ByteEncodable,
    F: ByteEncodable,
    G: ByteEncodable,
    H: ByteEncodable,
> ByteEncodable for (A, B, C, D, E, F, G, H) {
    open spec fn obeys_encoding_spec() -> bool {
        &&& A::obeys_encoding_spec()
        &&& B::obeys_encoding_spec()
        &&& C::obeys_encoding_spec()
        &&& D::obeys_encoding_spec()
        &&& E::obeys_encoding_spec()
        &&& F::obeys_encoding_spec()
        &&& G::obeys_encoding_spec()
        &&& H::obeys_encoding_spec()
    }

    open spec fn encoding(&self, width: nat) -> Seq<u8> {
        tuple_layout(
            seq![
                self.0.encoding(width),
                self.1.encoding(width),
                self.2.encoding(width),
                self.3.encoding(width),
                self.4.encoding(width),
                self.5.encoding(width),
                self.6.encoding(width),
                self.7.encoding(width),
            ],
            width,
        )
    }

    fn get_size<Size>(&self) -> (size: Option<Size>) where Size: BVSize {
        let ghost width = Size::width();
        let ghost s0 = Seq::<Seq<u8>>::empty();
        let acc = no_fields::<Size>();
        let ghost ok0 = true;
        let acc = add_field::<Size, A>(acc, &self.0, Ghost(s0), Ghost(ok0));
        let ghost s1 = s0.push(self.0.encoding(width));
        let ghost ok1 = ok0 && A::obeys_encoding_spec();
        let acc = add_field::<Size, B>(acc, &self.1, Ghost(s1), Ghost(ok1));
        let ghost s2 = s1.push(self.1.encoding(width));
        let ghost ok2 = ok1 && B::obeys_encoding_spec();
        let acc = add_field::<Size, C>(acc, &self.2, Ghost(s2), Ghost(ok2));
        let ghost s3 = s2.push(self.2.encoding(width));
        let ghost ok3 = ok2 && C::obeys_encoding_spec();
        let acc = add_field::<Size, D>(acc, &self.3, Ghost(s3), Ghost(ok3));
        let ghost s4 = s3.push(self.3.encoding(width));
        let ghost ok4 = ok3 && D::obeys_encoding_spec();
        let acc = add_field::<Size, E>(acc, &self.4, Ghost(s4), Ghost(ok4));
        let ghost s5 = s4.push(self.4.encoding(width));
        let ghost ok5 = ok4 && E::obeys_encoding_spec();
        let acc = add_field::<Size, F>(acc, &self.5, Ghost(s5), Ghost(ok5));
        let ghost s6 = s5.push(self.5.encoding(width));
        let ghost ok6 = ok5 && F::obeys_encoding_spec();
        let acc = add_field::<Size, G>(acc, &self.6, Ghost(s6), Ghost(ok6));
        let ghost s7 = s6.push(self.6.encoding(width));
        let ghost ok7 = ok6 && G::obeys_encoding_spec();
        let acc = add_field::<Size, H>(acc, &self.7, Ghost(s7), Ghost(ok7));
        let ghost s8 = s7.push(self.7.encoding(width));
        proof {
            assert(seq![
                self.0.encoding(width),
                self.1.encoding(width),
                self.2.encoding(width),
                self.3.encoding(width),
                self.4.encoding(width),
                self.5.encoding(width),
                self.6.encoding(width),
                self.7.encoding(width),
            ] =~= s8);
            lemma_layout_len(s8, width);
        }
        acc
    }

    fn encode<Size>(&self) -> (bytes: Result<Vec<u8>, ByteVecError>) where Size: BVSize {
        let ghost width = Size::width();
        let ghost all = seq![
            self.0.encoding(width),
            self.1.encoding(width),
            self.2.encoding(width),
            self.3.encoding(width),
            self.4.encoding(width),
            self.5.encoding(width),
            self.6.encoding(width),
            self.7.encoding(width),
        ];
        proof {
            lemma_layout_len(all, width);
        }
        let mut bodies: Vec<Vec<u8>> = Vec::new();
        match push_field::<Size, A>(&mut bodies, &self.0) {
            Ok(_) => {},
            Err(e) => {
                proof {
                    if A::obeys_encoding_spec() {
                        lemma_field_too_long(all, 0, width);
                    }
                }
                return Err(e);
            },
        }
        match push_field::<Size, B>(&mut bodies, &self.1) {
            Ok(_) => {},
            Err(e) => {
                proof {
                    if B::obeys_encoding_spec() {
                        lemma_field_too_long(all, 1, width);
                    }
                }
                return Err(e);
            },
        }
        match push_field::<Size, C>(&mut bodies, &self.2) {
            Ok(_) => {},
            Err(e) => {
                proof {
                    if C::obeys_encoding_spec() {
                        lemma_field_too_long(all, 2, width);
                    }
                }
                return Err(e);
            },
        }
        match push_field::<Size, D>(&mut bodies, &self.3) {
            Ok(_) => {},
            Err(e) => {
                proof {
                    if D::obeys_encoding_spec() {
                        lemma_field_too_long(all, 3, width);
                    }
                }
                return Err(e);
            },
        }
        match push_field::<Size, E>(&mut bodies, &self.4) {
            Ok(_) => {},
            Err(e) => {
                proof {
                    if E::obeys_encoding_spec() {
                        lemma_field_too_long(all, 4, width);
                    }
                }
                return Err(e);
            },
        }
        match push_field::<Size, F>(&mut bodies, &self.5) {
            Ok(_) => {},
            Err(e) => {
                proof {
                    if F::obeys_encoding_spec() {
                        lemma_field_too_long(all, 5, width);
                    }
                }
                return Err(e);
            },
        }
        match push_field::<Size, G>(&mut bodies, &self.6) {
            Ok(_) => {},
            Err(e) => {
                proof {
                    if G::obeys_encoding_spec() {
                        lemma_field_too_long(all, 6, width);
                    }
                }
                return Err(e);
            },
        }
        match push_field::<Size, H>(&mut bodies, &self.7) {
            Ok(_) => {},
            Err(e) => {
                proof {
                    if H::obeys_encoding_spec() {
                        lemma_field_too_long(all, 7, width);
                    }
                }
                return Err(e);
            },
        }
        assert(Self::obeys_encoding_spec() ==> views(bodies@) =~= all);
        pack_tuple::<Size>(&bodies)
    }
}

impl<
    A: ByteDecodable,
    B: ByteDecodable,
    C: ByteDecodable,
    D: ByteDecodable,
    E: ByteDecodable,
    F: ByteDecodable,
    G: ByteDecodable,
    H: ByteDecodable,
> ByteDecodable for (A, B, C, D, E, F, G, H) {
    open spec fn obeys_decoding_spec() -> bool {
        &&& A::obeys_decoding_spec()
        &&& B::obeys_decoding_spec()
        &&& C::obeys_decoding_spec()
        &&& D::obeys_decoding_spec()
        &&& E::obeys_decoding_spec()
        &&& F::obeys_decoding_spec()
        &&& G::obeys_decoding_spec()
        &&& H::obeys_decoding_spec()
    }

    open spec fn decodes_to(
        bytes: Seq<u8>,
        width: nat,
        outcome: Result<Self, ByteVecError>,
    ) -> bool {
        match tuple_frame(bytes, 8, width) {
            Ok(bodies) => match outcome {
                Ok(fields) => {
                    &&& A::decodes_to(bodies[0], width, Ok(fields.0))
                    &&& B::decodes_to(bodies[1], width, Ok(fields.1))
                    &&& C::decodes_to(bodies[2], width, Ok(fields.2))
                    &&& D::decodes_to(bodies[3], width, Ok(fields.3))
                    &&& E::decodes_to(bodies[4], width, Ok(fields.4))
                    &&& F::decodes_to(bodies[5], width, Ok(fields.5))
                    &&& G::decodes_to(bodies[6], width, Ok(fields.6))
                    &&& H::decodes_to(bodies[7], width, Ok(fields.7))
                },
                Err(e) => {
                    ||| A::decodes_to(bodies[0], width, Err(e))
                    ||| {
                        &&& decodable::<A>(bodies[0], width)
                        &&& B::decodes_to(bodies[1], width, Err(e))
                    }
                    ||| {
                        &&& decodable::<A>(bodies[0], width)
                        &&& decodable::<B>(bodies[1], width)
                        &&& C::decodes_to(bodies[2], width, Err(e))
                    }
                    ||| {
                        &&& decodable::<A>(bodies[0], width)
                        &&& decodable::<B>(bodies[1], width)
                        &&& decodable::<C>(bodies[2], width)
                        &&& D::decodes_to(bodies[3], width, Err(e))
                    }
                    ||| {
                        &&& decodable::<A>(bodies[0], width)
                        &&& decodable::<B>(bodies[1], width)
                        &&& decodable::<C>(bodies[2], width)
                        &&& decodable::<D>(bodies[3], width)
                        &&& E::decodes_to(bodies[4], width, Err(e))
                    }
                    ||| {
                        &&& decodable::<A>(bodies[0], width)
                        &&& decodable::<B>(bodies[1], width)
                        &&& decodable::<C>(bodies[2], width)
                        &&& decodable::<D>(bodies[3], width)
                        &&& decodable::<E>(bodies[4], width)
                        &&& F::decodes_to(bodies[5], width, Err(e))
                    }
                    ||| {
                        &&& decodable::<A>(bodies[0], width)
                        &&& decodable::<B>(bodies[1], width)
                        &&& decodable::<C>(bodies[2], width)
                        &&& decodable::<D>(bodies[3], width)
                        &&& decodable::<E>(bodies[4], width)
                        &&& decodable::<F>(bodies[5], width)
                        &&& G::decodes_to(bodies[6], width, Err(e))
                    }
                    ||| {
                        &&& decodable::<A>(bodies[0], width)
                        &&& decodable::<B>(bodies[1], width)
                        &&& decodable::<C>(bodies[2], width)
                        &&& decodable::<D>(bodies[3], width)
                        &&& decodable::<E>(bodies[4], width)
                        &&& decodable::<F>(bodies[5], width)
                        &&& decodable::<G>(bodies[6], width)
                        &&& H::decodes_to(bodies[7], width, Err(e))
                    }
                },
            },
            Err(e) => outcome matches Err(x) && x == e,
        }
    }

    fn decode<Size>(bytes: &[u8]) -> (outcome: Result<Self, ByteVecError>) where Size: BVSize {
        let ghost width = Size::width();
        let bounds = match read_tuple_frame::<Size>(bytes, 8) {
            Ok(bounds) => bounds,
            Err(e) => {
                return Err(e);
            },
        };
        let ghost bodies = tuple_frame(bytes@, 8, width)->Ok_0;
        let f0 = match decode_field::<Size, A>(bytes, &bounds, 0, Ghost(bodies)) {
            Ok(field) => field,
            Err(e) => {
                return Err(e);
            },
        };
        assert(A::obeys_decoding_spec() ==> decodable::<A>(bodies[0], width));
        let f1 = match decode_field::<Size, B>(bytes, &bounds, 1, Ghost(bodies)) {
            Ok(field) => field,
            Err(e) => {
                return Err(e);
            },
        };
        assert(B::obeys_decoding_spec() ==> decodable::<B>(bodies[1], width));
        let f2 = match decode_field::<Size, C>(bytes, &bounds, 2, Ghost(bodies)) {
            Ok(field) => field,
            Err(e) => {
                return Err(e);
            },
        };
        assert(C::obeys_decoding_spec() ==> decodable::<C>(bodies[2], width));
        let f3 = match decode_field::<Size, D>(bytes, &bounds, 3, Ghost(bodies)) {
            Ok(field) => field,
            Err(e) => {
                return Err(e);
            },
        };
        assert(D::obeys_decoding_spec() ==> decodable::<D>(bodies[3], width));
        let f4 = match decode_field::<Size, E>(bytes, &bounds, 4, Ghost(bodies)) {
            Ok(field) => field,
            Err(e) => {
                return Err(e);
            },
        };
        assert(E::obeys_decoding_spec() ==> decodable::<E>(bodies[4], width));
        let f5 = match decode_field::<Size, F>(bytes, &bounds, 5, Ghost(bodies)) {
            Ok(field) => field,
            Err(e) => {
                return Err(e);
            },
        };
        assert(F::obeys_decoding_spec() ==> decodable::<F>(bodies[5], width));
        let f6 = match decode_field::<Size, G>(bytes, &bounds, 6, Ghost(bodies)) {
            Ok(field) => field,
            Err(e) => {
                return Err(e);
            },
        };
        assert(G::obeys_decoding_spec() ==> decodable::<G>(bodies[6], width));
        let f7 = match decode_field::<Size, H>(bytes, &bounds, 7, Ghost(bodies)) {
            Ok(field) => field,
            Err(e) => {
                return Err(e);
            },
        };
        Ok((f0, f1, f2, f3, f4, f5, f6, f7))
    }
}

impl<
    A: RoundTrip,
    B: RoundTrip,
    C: RoundTrip,
    D: RoundTrip,
    E: RoundTrip,
    F: RoundTrip,
    G: RoundTrip,
    H: RoundTrip,
> RoundTrip for (A, B, C, D, E, F, G, H) {
    open spec fn same(&self, other: &Self) -> bool {
        &&& self.0.same(&other.0)
        &&& self.1.same(&other.1)
        &&& self.2.same(&other.2)
        &&& self.3.same(&other.3)
        &&& self.4.same(&other.4)
        &&& self.5.same(&other.5)
        &&& self.6.same(&other.6)
        &&& self.7.same(&other.7)
    }

    proof fn lemma_round_trip(&self, width: nat, outcome: Result<Self, ByteVecError>) {
        let all = seq![
            self.0.encoding(width),
            self.1.encoding(width),
            self.2.encoding(width),
            self.3.encoding(width),
            self.4.encoding(width),
            self.5.encoding(width),
            self.6.encoding(width),
            self.7.encoding(width),
        ];
        lemma_layout_len(all, width);
        lemma_parts_fit(all, width);
        lemma_tuple_frame_of_layout(all, width);
        assert(fits(all[0].len(), width));
        assert(fits(all[1].len(), width));
        assert(fits(all[2].len(), width));
        assert(fits(all[3].len(), width));
        assert(fits(all[4].len(), width));
        assert(fits(all[5].len(), width));
        assert(fits(all[6].len(), width));
        assert(fits(all[7].len(), width));
        match outcome {
            Ok(fields) => {
                self.0.lemma_round_trip(width, Ok(fields.0));
                self.1.lemma_round_trip(width, Ok(fields.1));
                self.2.lemma_round_trip(width, Ok(fields.2));
                self.3.lemma_round_trip(width, Ok(fields.3));
                self.4.lemma_round_trip(width, Ok(fields.4));
                self.5.lemma_round_trip(width, Ok(fields.5));
                self.6.lemma_round_trip(width, Ok(fields.6));
                self.7.lemma_round_trip(width, Ok(fields.7));
            },
            Err(e) => {
                if A::decodes_to(all[0], width, Err(e)) {
                    self.0.lemma_round_trip(width, Err(e));
                } else if B::decodes_to(all[1], width, Err(e)) {
                    self.1.lemma_round_trip(width, Err(e));
                } else if C::decodes_to(all[2], width, Err(e)) {
                    self.2.lemma_round_trip(width, Err(e));
                } else if D::decodes_to(all[3], width, Err(e)) {
                    self.3.lemma_round_trip(width, Err(e));
                } else if E::decodes_to(all[4], width, Err(e)) {
                    self.4.lemma_round_trip(width, Err(e));
                } else if F::decodes_to(all[5], width, Err(e)) {
                    self.5.lemma_round_trip(width, Err(e));
                } else if G::decodes_to(all[6], width, Err(e)) {
                    self.6.lemma_round_trip(width, Err(e));
                } else if H::decodes_to(all[7], width, Err(e)) {
                    self.7.lemma_round_trip(width, Err(e));
                }
            },
        }
    }
}

impl<
    A: ByteEncodable,
    B: ByteEncodable,
    C: ByteEncodable,
    D: ByteEncodable,
    E: ByteEncodable,
    F: ByteEncodable,
    G: ByteEncodable,
    H: ByteEncodable,
    I: ByteEncodable,
> ByteEncodable for (A, B, C, D, E, F, G, H, I) {
    open spec fn obeys_encoding_spec() -> bool {
        &&& A::obeys_encoding_spec()
        &&& B::obeys_encoding_spec()
        &&& C::obeys_encoding_spec()
        &&& D::obeys_encoding_spec()
        &&& E::obeys_encoding_spec()
        &&& F::obeys_encoding_spec()
        &&& G::obeys_encoding_spec()
        &&& H::obeys_encoding_spec()
        &&& I::obeys_encoding_spec()
    }

    open spec fn encoding(&self, width: nat) -> Seq<u8> {
        tuple_layout(
            seq![
                self.0.encoding(width),
                self.1.encoding(width),
                self.2.encoding(width),
                self.3.encoding(width),
                self.4.encoding(width),
                self.5.encoding(width),
                self.6.encoding(width),
                self.7.encoding(width),
                self.8.encoding(width),
            ],
            width,
        )
    }

    fn get_size<Size>(&self) -> (size: Option<Size>) where Size: BVSize {
        let ghost width = Size::width();
        let ghost s0 = Seq::<Seq<u8>>::empty();
        let acc = no_fields::<Size>();
        let ghost ok0 = true;
        let acc = add_field::<Size, A>(acc, &self.0, Ghost(s0), Ghost(ok0));
        let ghost s1 = s0.push(self.0.encoding(width));
        let ghost ok1 = ok0 && A::obeys_encoding_spec();
        let acc = add_field::<Size, B>(acc, &self.1, Ghost(s1), Ghost(ok1));
        let ghost s2 = s1.push(self.1.encoding(width));
        let ghost ok2 = ok1 && B::obeys_encoding_spec();
        let acc = add_field::<Size, C>(acc, &self.2, Ghost(s2), Ghost(ok2));
        let ghost s3 = s2.push(self.2.encoding(width));
        let ghost ok3 = ok2 && C::obeys_encoding_spec();
        let acc = add_field::<Size, D>(acc, &self.3, Ghost(s3), Ghost(ok3));
        let ghost s4 = s3.push(self.3.encoding(width));
        let ghost ok4 = ok3 && D::obeys_encoding_spec();
        let acc = add_field::<Size, E>(acc, &self.4, Ghost(s4), Ghost(ok4));
        let ghost s5 = s4.push(self.4.encoding(width));
        let ghost ok5 = ok4 && E::obeys_encoding_spec();
        let acc = add_field::<Size, F>(acc, &self.5, Ghost(s5), Ghost(ok5));
        let ghost s6 = s5.push(self.5.encoding(width));
        let ghost ok6 = ok5 && F::obeys_encoding_spec();
        let acc = add_field::<Size, G>(acc, &self.6, Ghost(s6), Ghost(ok6));
        let ghost s7 = s6.push(self.6.encoding(width));
        let ghost ok7 = ok6 && G::obeys_encoding_spec();
        let acc = add_field::<Size, H>(acc, &self.7, Ghost(s7), Ghost(ok7));
        let ghost s8 = s7.push(self.7.encoding(width));
        let ghost ok8 = ok7 && H::obeys_encoding_spec();
        let acc = add_field::<Size, I>(acc, &self.8, Ghost(s8), Ghost(ok8));
        let ghost s9 = s8.push(self.8.encoding(width));
        proof {
            assert(seq![
                self.0.encoding(width),
                self.1.encoding(width),
                self.2.encoding(width),
                self.3.encoding(width),
                self.4.encoding(width),
                self.5.encoding(width),
                self.6.encoding(width),
                self.7.encoding(width),
                self.8.encoding(width),
            ] =~= s9);
            lemma_layout_len(s9, width);
        }
        acc
    }

    fn encode<Size>(&self) -> (bytes: Result<Vec<u8>, ByteVecError>) where Size: BVSize {
        let ghost width = Size::width();
        let ghost all = seq![
            self.0.encoding(width),
            self.1.encoding(width),
            self.2.encoding(width),
            self.3.encoding(width),
            self.4.encoding(width),
            self.5.encoding(width),
            self.6.encoding(width),
            self.7.encoding(width),
            self.8.encoding(width),
        ];
        proof {
            lemma_layout_len(all, width);
        }
        let mut bodies: Vec<Vec<u8>> = Vec::new();
        match push_field::<Size, A>(&mut bodies, &self.0) {
            Ok(_) => {},
            Err(e) => {
                proof {
                    if A::obeys_encoding_spec() {
                        lemma_field_too_long(all, 0, width);
                    }
                }
                return Err(e);
            },
        }
        match push_field::<Size, B>(&mut bodies, &self.1) {
            Ok(_) => {},
            Err(e) => {
                proof {
                    if B::obeys_encoding_spec() {
                        lemma_field_too_long(all, 1, width);
                    }
                }
                return Err(e);
            },
        }
        match push_field::<Size, C>(&mut bodies, &self.2) {
            Ok(_) => {},
            Err(e) => {
                proof {
                    if C::obeys_encoding_spec() {
                        lemma_field_too_long(all, 2, width);
                    }
                }
                return Err(e);
            },
        }
        match push_field::<Size, D>(&mut bodies, &self.3) {
            Ok(_) => {},
            Err(e) => {
                proof {
                    if D::obeys_encoding_spec() {
                        lemma_field_too_long(all, 3, width);
                    }
                }
                return Err(e);
            },
        }
        match push_field::<Size, E>(&mut bodies, &self.4) {
            Ok(_) => {},
            Err(e) => {
                proof {
                    if E::obeys_encoding_spec() {
                        lemma_field_too_long(all, 4, width);
                    }
                }
                return Err(e);
            },
        }
        match push_field::<Size, F>(&mut bodies, &self.5) {
            Ok(_) => {},
            Err(e) => {
                proof {
                    if F::obeys_encoding_spec() {
                        lemma_field_too_long(all, 5, width);
                    }
                }
                return Err(e);
            },
        }
        match push_field::<Size, G>(&mut bodies, &self.6) {
            Ok(_) => {},
            Err(e) => {
                proof {
                    if G::obeys_encoding_spec() {
                        lemma_field_too_long(all, 6, width);
                    }
                }
                return Err(e);
            },
        }
        match push_field::<Size, H>(&mut bodies, &self.7) {
            Ok(_) => {},
            Err(e) => {
                proof {
                    if H::obeys_encoding_spec() {
                        lemma_field_too_long(all, 7, width);
                    }
                }
                return Err(e);
            },
        }
        match push_field::<Size, I>(&mut bodies, &self.8) {
            Ok(_) => {},
            Err(e) => {
                proof {
                    if I::obeys_encoding_spec() {
                        lemma_field_too_long(all, 8, width);
                    }
                }
                return Err(e);
            },
        }
        assert(Self::obeys_encoding_spec() ==> views(bodies@) =~= all);
        pack_tuple::<Size>(&bodies)
    }
}

impl<
    A: ByteDecodable,
    B: ByteDecodable,
    C: ByteDecodable,
    D: ByteDecodable,
    E: ByteDecodable,
    F: ByteDecodable,
    G: ByteDecodable,
    H: ByteDecodable,
    I: ByteDecodable,
> ByteDecodable for (A, B, C, D, E, F, G, H, I) {
    open spec fn obeys_decoding_spec() -> bool {
        &&& A::obeys_decoding_spec()
        &&& B::obeys_decoding_spec()
        &&& C::obeys_decoding_spec()
        &&& D::obeys_decoding_spec()
        &&& E::obeys_decoding_spec()
        &&& F::obeys_decoding_spec()
        &&& G::obeys_decoding_spec()
        &&& H::obeys_decoding_spec()
        &&& I::obeys_decoding_spec()
    }

    open spec fn decodes_to(
        bytes: Seq<u8>,
        width: nat,
        outcome: Result<Self, ByteVecError>,
    ) -> bool {
        match tuple_frame(bytes, 9, width) {
            Ok(bodies) => match outcome {
                Ok(fields) => {
                    &&& A::decodes_to(bodies[0], width, Ok(fields.0))
                    &&& B::decodes_to(bodies[1], width, Ok(fields.1))
                    &&& C::decodes_to(bodies[2], width, Ok(fields.2))
                    &&& D::decodes_to(bodies[3], width, Ok(fields.3))
                    &&& E::decodes_to(bodies[4], width, Ok(fields.4))
                    &&& F::decodes_to(bodies[5], width, Ok(fields.5))
                    &&& G::decodes_to(bodies[6], width, Ok(fields.6))
                    &&& H::decodes_to(bodies[7], width, Ok(fields.7))
                    &&& I::decodes_to(bodies[8], width, Ok(fields.8))
                },
                Err(e) => {
                    ||| A::decodes_to(bodies[0], width, Err(e))
                    ||| {
                        &&& decodable::<A>(bodies[0], width)
                        &&& B::decodes_to(bodies[1], width, Err(e))
                    }
                    ||| {
                        &&& decodable::<A>(bodies[0], width)
                        &&& decodable::<B>(bodies[1], width)
                        &&& C::decodes_to(bodies[2], width, Err(e))
                    }
                    ||| {
                        &&& decodable::<A>(bodies[0], width)
                        &&& decodable::<B>(bodies[1], width)
                        &&& decodable::<C>(bodies[2], width)
                        &&& D::decodes_to(bodies[3], width, Err(e))
                    }
                    ||| {
                        &&& decodable::<A>(bodies[0], width)
                        &&& decodable::<B>(bodies[1], width)
                        &&& decodable::<C>(bodies[2], width)
                        &&& decodable::<D>(bodies[3], width)
                        &&& E::decodes_to(bodies[4], width, Err(e))
                    }
                    ||| {
                        &&& decodable::<A>(bodies[0], width)
                        &&& decodable::<B>(bodies[1], width)
                        &&& decodable::<C>(bodies[2], width)
                        &&& decodable::<D>(bodies[3], width)
                        &&& decodable::<E>(bodies[4], width)
                        &&& F::decodes_to(bodies[5], width, Err(e))
                    }
                    ||| {
                        &&& decodable::<A>(bodies[0], width)
                        &&& decodable::<B>(bodies[1], width)
                        &&& decodable::<C>(bodies[2], width)
                        &&& decodable::<D>(bodies[3], width)
                        &&& decodable::<E>(bodies[4], width)
                        &&& decodable::<F>(bodies[5], width)
                        &&& G::decodes_to(bodies[6], width, Err(e))
                    }
                    ||| {
                        &&& decodable::<A>(bodies[0], width)
                        &&& decodable::<B>(bodies[1], width)
                        &&& decodable::<C>(bodies[2], width)
                        &&& decodable::<D>(bodies[3], width)
                        &&& decodable::<E>(bodies[4], width)
                        &&& decodable::<F>(bodies[5], width)
                        &&& decodable::<G>(bodies[6], width)
                        &&& H::decodes_to(bodies[7], width, Err(e))
                    }
                    ||| {
                        &&& decodable::<A>(bodies[0], width)
                        &&& decodable::<B>(bodies[1], width)
                        &&& decodable::<C>(bodies[2], width)
                        &&& decodable::<D>(bodies[3], width)
                        &&& decodable::<E>(bodies[4], width)
                        &&& decodable::<F>(bodies[5], width)
                        &&& decodable::<G>(bodies[6], width)
                        &&& decodable::<H>(bodies[7], width)
                        &&& I::decodes_to(bodies[8], width, Err(e))
                    }
                },
            },
            Err(e) => outcome matches Err(x) && x == e,
        }
    }

    fn decode<Size>(bytes: &[u8]) -> (outcome: Result<Self, ByteVecError>) where Size: BVSize {
        let ghost width = Size::width();
        let bounds = match read_tuple_frame::<Size>(bytes, 9) {
            Ok(bounds) => bounds,
            Err(e) => {
                return Err(e);
            },
        };
        let ghost bodies = tuple_frame(bytes@, 9, width)->Ok_0;
        let f0 = match decode_field::<Size, A>(bytes, &bounds, 0, Ghost(bodies)) {
            Ok(field) => field,
            Err(e) => {
                return Err(e);
            },
        };
        assert(A::obeys_decoding_spec() ==> decodable::<A>(bodies[0], width));
        let f1 = match decode_field::<Size, B>(bytes, &bounds, 1, Ghost(bodies)) {
            Ok(field) => field,
            Err(e) => {
                return Err(e);
            },
        };
        assert(B::obeys_decoding_spec() ==> decodable::<B>(bodies[1], width));
        let f2 = match decode_field::<Size, C>(bytes, &bounds, 2, Ghost(bodies)) {
            Ok(field) => field,
            Err(e) => {
                return Err(e);
            },
        };
        assert(C::obeys_decoding_spec() ==> decodable::<C>(bodies[2], width));
        let f3 = match decode_field::<Size, D>(bytes, &bounds, 3, Ghost(bodies)) {
            Ok(field) => field,
            Err(e) => {
                return Err(e);
            },
        };
        assert(D::obeys_decoding_spec() ==> decodable::<D>(bodies[3], width));
        let f4 = match decode_field::<Size, E>(bytes, &bounds, 4, Ghost(bodies)) {
            Ok(field) => field,
            Err(e) => {
                return Err(e);
            },
        };
        assert(E::obeys_decoding_spec() ==> decodable::<E>(bodies[4], width));
        let f5 = match decode_field::<Size, F>(bytes, &bounds, 5, Ghost(bodies)) {
            Ok(field) => field,
            Err(e) => {
                return Err(e);
            },
        };
        assert(F::obeys_decoding_spec() ==> decodable::<F>(bodies[5], width));
        let f6 = match decode_field::<Size, G>(bytes, &bounds, 6, Ghost(bodies)) {
            Ok(field) => field,
            Err(e) => {
                return Err(e);
            },
        };
        assert(G::obeys_decoding_spec() ==> decodable::<G>(bodies[6], width));
        let f7 = match decode_field::<Size, H>(bytes, &bounds, 7, Ghost(bodies)) {
            Ok(field) => field,
            Err(e) => {
                return Err(e);
            },
        };
        assert(H::obeys_decoding_spec() ==> decodable::<H>(bodies[7], width));
        let f8 = match decode_field::<Size, I>(bytes, &bounds, 8, Ghost(bodies)) {
            Ok(field) => field,
            Err(e) => {
                return Err(e);
            },
        };
        Ok((f0, f1, f2, f3, f4, f5, f6, f7, f8))
    }
}

impl<
    A: RoundTrip,
    B: RoundTrip,
    C: RoundTrip,
    D: RoundTrip,
    E: RoundTrip,
    F: RoundTrip,
    G: RoundTrip,
    H: RoundTrip,
    I: RoundTrip,
> RoundTrip for (A, B, C, D, E, F, G, H, I) {
    open spec fn same(&self, other: &Self) -> bool {
        &&& self.0.same(&other.0)
        &&& self.1.same(&other.1)
        &&& self.2.same(&other.2)
        &&& self.3.same(&other.3)
        &&& self.4.same(&other.4)
        &&& self.5.same(&other.5)
        &&& self.6.same(&other.6)
        &&& self.7.same(&other.7)
        &&& self.8.same(&other.8)
    }

    proof fn lemma_round_trip(&self, width: nat, outcome: Result<Self, ByteVecError>) {
        let all = seq![
            self.0.encoding(width),
            self.1.encoding(width),
            self.2.encoding(width),
            self.3.encoding(width),
            self.4.encoding(width),
            self.5.encoding(width),
            self.6.encoding(width),
            self.7.encoding(width),
            self.8.encoding(width),
        ];
        lemma_layout_len(all, width);
        lemma_parts_fit(all, width);
        lemma_tuple_frame_of_layout(all, width);
        assert(fits(all[0].len(), width));
        assert(fits(all[1].len(), width));
        assert(fits(all[2].len(), width));
        assert(fits(all[3].len(), width));
        assert(fits(all[4].len(), width));
        assert(fits(all[5].len(), width));
        assert(fits(all[6].len(), width));
        assert(fits(all[7].len(), width));
        assert(fits(all[8].len(), width));
        match outcome {
            Ok(fields) => {
                self.0.lemma_round_trip(width, Ok(fields.0));
                self.1.lemma_round_trip(width, Ok(fields.1));
                self.2.lemma_round_trip(width, Ok(fields.2));
                self.3.lemma_round_trip(width, Ok(fields.3));
                self.4.lemma_round_trip(width, Ok(fields.4));
                self.5.lemma_round_trip(width, Ok(fields.5));
                self.6.lemma_round_trip(width, Ok(fields.6));
                self.7.lemma_round_trip(width, Ok(fields.7));
                self.8.lemma_round_trip(width, Ok(fields.8));
            },
            Err(e) => {
                if A::decodes_to(all[0], width, Err(e)) {
                    self.0.lemma_round_trip(width, Err(e));
                } else if B::decodes_to(all[1], width, Err(e)) {
                    self.1.lemma_round_trip(width, Err(e));
                } else if C::decodes_to(all[2], width, Err(e)) {
                    self.2.lemma_round_trip(width, Err(e));
                } else if D::decodes_to(all[3], width, Err(e)) {
                    self.3.lemma_round_trip(width, Err(e));
                } else if E::decodes_to(all[4], width, Err(e)) {
                    self.4.lemma_round_trip(width, Err(e));
                } else if F::decodes_to(all[5], width, Err(e)) {
                    self.5.lemma_round_trip(width, Err(e));
                } else if G::decodes_to(all[6], width, Err(e)) {
                    self.6.lemma_round_trip(width, Err(e));
                } else if H::decodes_to(all[7], width, Err(e)) {
                    self.7.lemma_round_trip(width, Err(e));
                } else if I::decodes_to(all[8], width, Err(e)) {
                    self.8.lemma_round_trip(width, Err(e));
                }
            },
        }
    }
}

impl<
    A: ByteEncodable,
    B: ByteEncodable,
    C: ByteEncodable,
    D: ByteEncodable,
    E: ByteEncodable,
    F: ByteEncodable,
    G: ByteEncodable,
    H: ByteEncodable,
    I: ByteEncodable,
    J: ByteEncodable,
> ByteEncodable for (A, B, C, D, E, F, G, H, I, J) {
    open spec fn obeys_encoding_spec() -> bool {
        &&& A::obeys_encoding_spec()
        &&& B::obeys_encoding_spec()
        &&& C::obeys_encoding_spec()
        &&& D::obeys_encoding_spec()
        &&& E::obeys_encoding_spec()
        &&& F::obeys_encoding_spec()
        &&& G::obeys_encoding_spec()
        &&& H::obeys_encoding_spec()
        &&& I::obeys_encoding_spec()
        &&& J::obeys_encoding_spec()
    }

    open spec fn encoding(&self, width: nat) -> Seq<u8> {
        tuple_layout(
            seq![
                self.0.encoding(width),
                self.1.encoding(width),
                self.2.encoding(width),
                self.3.encoding(width),
                self.4.encoding(width),
                self.5.encoding(width),
                self.6.encoding(width),
                self.7.encoding(width),
                self.8.encoding(width),
                self.9.encoding(width),
            ],
            width,
        )
    }

    fn get_size<Size>(&self) -> (size: Option<Size>) where Size: BVSize {
        let ghost width = Size::width();
        let ghost s0 = Seq::<Seq<u8>>::empty();
        let acc = no_fields::<Size>();
        let ghost ok0 = true;
        let acc = add_field::<Size, A>(acc, &self.0, Ghost(s0), Ghost(ok0));
        let ghost s1 = s0.push(self.0.encoding(width));
        let ghost ok1 = ok0 && A::obeys_encoding_spec();
        let acc = add_field::<Size, B>(acc, &self.1, Ghost(s1), Ghost(ok1));
        let ghost s2 = s1.push(self.1.encoding(width));
        let ghost ok2 = ok1 && B::obeys_encoding_spec();
        let acc = add_field::<Size, C>(acc, &self.2, Ghost(s2), Ghost(ok2));
        let ghost s3 = s2.push(self.2.encoding(width));
        let ghost ok3 = ok2 && C::obeys_encoding_spec();
        let acc = add_field::<Size, D>(acc, &self.3, Ghost(s3), Ghost(ok3));
        let ghost s4 = s3.push(self.3.encoding(width));
        let ghost ok4 = ok3 && D::obeys_encoding_spec();
        let acc = add_field::<Size, E>(acc, &self.4, Ghost(s4), Ghost(ok4));
        let ghost s5 = s4.push(self.4.encoding(width));
        let ghost ok5 = ok4 && E::obeys_encoding_spec();
        let acc = add_field::<Size, F>(acc, &self.5, Ghost(s5), Ghost(ok5));
        let ghost s6 = s5.push(self.5.encoding(width));
        let ghost ok6 = ok5 && F::obeys_encoding_spec();
        let acc = add_field::<Size, G>(acc, &self.6, Ghost(s6), Ghost(ok6));
        let ghost s7 = s6.push(self.6.encoding(width));
        let ghost ok7 = ok6 && G::obeys_encoding_spec();
        let acc = add_field::<Size, H>(acc, &self.7, Ghost(s7), Ghost(ok7));
        let ghost s8 = s7.push(self.7.encoding(width));
        let ghost ok8 = ok7 && H::obeys_encoding_spec();
        let acc = add_field::<Size, I>(acc, &self.8, Ghost(s8), Ghost(ok8));
        let ghost s9 = s8.push(self.8.encoding(width));
        let ghost ok9 = ok8 && I::obeys_encoding_spec();
        let acc = add_field::<Size, J>(acc, &self.9, Ghost(s9), Ghost(ok9));
        let ghost s10 = s9.push(self.9.encoding(width));
        proof {
            assert(seq![
                self.0.encoding(width),
                self.1.encoding(width),
                self.2.encoding(width),
                self.3.encoding(width),
                self.4.encoding(width),
                self.5.encoding(width),
                self.6.encoding(width),
                self.7.encoding(width),
                self.8.encoding(width),
                self.9.encoding(width),
            ] =~= s10);
            lemma_layout_len(s10, width);
        }
        acc
    }

    fn encode<Size>(&self) -> (bytes: Result<Vec<u8>, ByteVecError>) where Size: BVSize {
        let ghost width = Size::width();
        let ghost all = seq![
            self.0.encoding(width),
            self.1.encoding(width),
            self.2.encoding(width),
            self.3.encoding(width),
            self.4.encoding(width),
            self.5.encoding(width),
            self.6.encoding(width),
            self.7.encoding(width),
            self.8.encoding(width),
            self.9.encoding(width),
        ];
        proof {
            lemma_layout_len(all, width);
        }
        let mut bodies: Vec<Vec<u8>> = Vec::new();
        match push_field::<Size, A>(&mut bodies, &self.0) {
            Ok(_) => {},
            Err(e) => {
                proof {
                    if A::obeys_encoding_spec() {
                        lemma_field_too_long(all, 0, width);
                    }
                }
                return Err(e);
            },
        }
        match push_field::<Size, B>(&mut bodies, &self.1) {
            Ok(_) => {},
            Err(e) => {
                proof {
                    if B::obeys_encoding_spec() {
                        lemma_field_too_long(all, 1, width);
                    }
                }
                return Err(e);
            },
        }
        match push_field::<Size, C>(&mut bodies, &self.2) {
            Ok(_) => {},
            Err(e) => {
                proof {
                    if C::obeys_encoding_spec() {
                        lemma_field_too_long(all, 2, width);
                    }
                }
                return Err(e);
            },
        }
        match push_field::<Size, D>(&mut bodies, &self.3) {
            Ok(_) => {},
            Err(e) => {
                proof {
                    if D::obeys_encoding_spec() {
                        lemma_field_too_long(all, 3, width);
                    }
                }
                return Err(e);
            },
        }
        match push_field::<Size, E>(&mut bodies, &self.4) {
            Ok(_) => {},
            Err(e) => {
                proof {
                    if E::obeys_encoding_spec() {
                        lemma_field_too_long(all, 4, width);
                    }
                }
                return Err(e);
            },
        }
        match push_field::<Size, F>(&mut bodies, &self.5) {
            Ok(_) => {},
            Err(e) => {
                proof {
                    if F::obeys_encoding_spec() {
                        lemma_field_too_long(all, 5, width);
                    }
                }
                return Err(e);
            },
        }
        match push_field::<Size, G>(&mut bodies, &self.6) {
            Ok(_) => {},
            Err(e) => {
                proof {
                    if G::obeys_encoding_spec() {
                        lemma_field_too_long(all, 6, width);
                    }
                }
                return Err(e);
            },
        }
        match push_field::<Size, H>(&mut bodies, &self.7) {
            Ok(_) => {},
            Err(e) => {
                proof {
                    if H::obeys_encoding_spec() {
                        lemma_field_too_long(all, 7, width);
                    }
                }
                return Err(e);
            },
        }
        match push_field::<Size, I>(&mut bodies, &self.8) {
            Ok(_) => {},
            Err(e) => {
                proof {
                    if I::obeys_encoding_spec() {
                        lemma_field_too_long(all, 8, width);
                    }
                }
                return Err(e);
            },
        }
        match push_field::<Size, J>(&mut bodies, &self.9) {
            Ok(_) => {},
            Err(e) => {
                proof {
                    if J::obeys_encoding_spec() {
                        lemma_field_too_long(all, 9, width);
                    }
                }
                return Err(e);
            },
        }
        assert(Self::obeys_encoding_spec() ==> views(bodies@) =~= all);
        pack_tuple::<Size>(&bodies)
    }
}

impl<
    A: ByteDecodable,
    B: ByteDecodable,
    C: ByteDecodable,
    D: ByteDecodable,
    E: ByteDecodable,
    F: ByteDecodable,
    G: ByteDecodable,
    H: ByteDecodable,
    I: ByteDecodable,
    J: ByteDecodable,
> ByteDecodable for (A, B, C, D, E, F, G, H, I, J) {
    open spec fn obeys_decoding_spec() -> bool {
        &&& A::obeys_decoding_spec()
        &&& B::obeys_decoding_spec()
        &&& C::obeys_decoding_spec()
        &&& D::obeys_decoding_spec()
        &&& E::obeys_decoding_spec()
        &&& F::obeys_decoding_spec()
        &&& G::obeys_decoding_spec()
        &&& H::obeys_decoding_spec()
        &&& I::obeys_decoding_spec()
        &&& J::obeys_decoding_spec()
    }

    open spec fn decodes_to(
        bytes: Seq<u8>,
        width: nat,
        outcome: Result<Self, ByteVecError>,
    ) -> bool {
        match tuple_frame(bytes, 10, width) {
            Ok(bodies) => match outcome {
                Ok(fields) => {
                    &&& A::decodes_to(bodies[0], width, Ok(fields.0))
                    &&& B::decodes_to(bodies[1], width, Ok(fields.1))
                    &&& C::decodes_to(bodies[2], width, Ok(fields.2))
                    &&& D::decodes_to(bodies[3], width, Ok(fields.3))
                    &&& E::decodes_to(bodies[4], width, Ok(fields.4))
                    &&& F::decodes_to(bodies[5], width, Ok(fields.5))
                    &&& G::decodes_to(bodies[6], width, Ok(fields.6))
                    &&& H::decodes_to(bodies[7], width, Ok(fields.7))
                    &&& I::decodes_to(bodies[8], width, Ok(fields.8))
                    &&& J::decodes_to(bodies[9], width, Ok(fields.9))
                },
                Err(e) => {
                    ||| A::decodes_to(bodies[0], width, Err(e))
                    ||| {
                        &&& decodable::<A>(bodies[0], width)
                        &&& B::decodes_to(bodies[1], width, Err(e))
                    }
                    ||| {
                        &&& decodable::<A>(bodies[0], width)
                        &&& decodable::<B>(bodies[1], width)
                        &&& C::decodes_to(bodies[2], width, Err(e))
                    }
                    ||| {
                        &&& decodable::<A>(bodies[0], width)
                        &&& decodable::<B>(bodies[1], width)
                        &&& decodable::<C>(bodies[2], width)
                        &&& D::decodes_to(bodies[3], width, Err(e))
                    }
                    ||| {
                        &&& decodable::<A>(bodies[0], width)
                        &&& decodable::<B>(bodies[1], width)
                        &&& decodable::<C>(bodies[2], width)
                        &&& decodable::<D>(bodies[3], width)
                        &&& E::decodes_to(bodies[4], width, Err(e))
                    }
                    ||| {
                        &&& decodable::<A>(bodies[0], width)
                        &&& decodable::<B>(bodies[1], width)
                        &&& decodable::<C>(bodies[2], width)
                        &&& decodable::<D>(bodies[3], width)
                        &&& decodable::<E>(bodies[4], width)
                        &&& F::decodes_to(bodies[5], width, Err(e))
                    }
                    ||| {
                        &&& decodable::<A>(bodies[0], width)
                        &&& decodable::<B>(bodies[1], width)
                        &&& decodable::<C>(bodies[2], width)
                        &&& decodable::<D>(bodies[3], width)
                        &&& decodable::<E>(bodies[4], width)
                        &&& decodable::<F>(bodies[5], width)
                        &&& G::decodes_to(bodies[6], width, Err(e))
                    }
                    ||| {
                        &&& decodable::<A>(bodies[0], width)
                        &&& decodable::<B>(bodies[1], width)
                        &&& decodable::<C>(bodies[2], width)
                        &&& decodable::<D>(bodies[3], width)
                        &&& decodable::<E>(bodies[4], width)
                        &&& decodable::<F>(bodies[5], width)
                        &&& decodable::<G>(bodies[6], width)
                        &&& H::decodes_to(bodies[7], width, Err(e))
                    }
                    ||| {
                        &&& decodable::<A>(bodies[0], width)
                        &&& decodable::<B>(bodies[1], width)
                        &&& decodable::<C>(bodies[2], width)
                        &&& decodable::<D>(bodies[3], width)
                        &&& decodable::<E>(bodies[4], width)
                        &&& decodable::<F>(bodies[5], width)
                        &&& decodable::<G>(bodies[6], width)
                        &&& decodable::<H>(bodies[7], width)
                        &&& I::decodes_to(bodies[8], width, Err(e))
                    }
                    ||| {
                        &&& decodable::<A>(bodies[0], width)
                        &&& decodable::<B>(bodies[1], width)
                        &&& decodable::<C>(bodies[2], width)
                        &&& decodable::<D>(bodies[3], width)
                        &&& decodable::<E>(bodies[4], width)
                        &&& decodable::<F>(bodies[5], width)
                        &&& decodable::<G>(bodies[6], width)
                        &&& decodable::<H>(bodies[7], width)
                        &&& decodable::<I>(bodies[8], width)
                        &&& J::decodes_to(bodies[9], width, Err(e))
                    }
                },
            },
            Err(e) => outcome matches Err(x) && x == e,
        }
    }

    fn decode<Size>(bytes: &[u8]) -> (outcome: Result<Self, ByteVecError>) where Size: BVSize {
        let ghost width = Size::width();
        let bounds = match read_tuple_frame::<Size>(bytes, 10) {
            Ok(bounds) => bounds,
            Err(e) => {
                return Err(e);
            },
        };
        let ghost bodies = tuple_frame(bytes@, 10, width)->Ok_0;
        let f0 = match decode_field::<Size, A>(bytes, &bounds, 0, Ghost(bodies)) {
            Ok(field) => field,
            Err(e) => {
                return Err(e);
            },
        };
        assert(A::obeys_decoding_spec() ==> decodable::<A>(bodies[0], width));
        let f1 = match decode_field::<Size, B>(bytes, &bounds, 1, Ghost(bodies)) {
            Ok(field) => field,
            Err(e) => {
                return Err(e);
            },
        };
        assert(B::obeys_decoding_spec() ==> decodable::<B>(bodies[1], width));
        let f2 = match decode_field::<Size, C>(bytes, &bounds, 2, Ghost(bodies)) {
            Ok(field) => field,
            Err(e) => {
                return Err(e);
            },
        };
        assert(C::obeys_decoding_spec() ==> decodable::<C>(bodies[2], width));
        let f3 = match decode_field::<Size, D>(bytes, &bounds, 3, Ghost(bodies)) {
            Ok(field) => field,
            Err(e) => {
                return Err(e);
            },
        };
        assert(D::obeys_decoding_spec() ==> decodable::<D>(bodies[3], width));
        let f4 = match decode_field::<Size, E>(bytes, &bounds, 4, Ghost(bodies)) {
            Ok(field) => field,
            Err(e) => {
                return Err(e);
            },
        };
        assert(E::obeys_decoding_spec() ==> decodable::<E>(bodies[4], width));
        let f5 = match decode_field::<Size, F>(bytes, &bounds, 5, Ghost(bodies)) {
            Ok(field) => field,
            Err(e) => {
                return Err(e);
            },
        };
        assert(F::obeys_decoding_spec() ==> decodable::<F>(bodies[5], width));
        let f6 = match decode_field::<Size, G>(bytes, &bounds, 6, Ghost(bodies)) {
            Ok(field) => field,
            Err(e) => {
                return Err(e);
            },
        };
        assert(G::obeys_decoding_spec() ==> decodable::<G>(bodies[6], width));
        let f7 = match decode_field::<Size, H>(bytes, &bounds, 7, Ghost(bodies)) {
            Ok(field) => field,
            Err(e) => {
                return Err(e);
            },
        };
        assert(H::obeys_decoding_spec() ==> decodable::<H>(bodies[7], width));
        let f8 = match decode_field::<Size, I>(bytes, &bounds, 8, Ghost(bodies)) {
            Ok(field) => field,
            Err(e) => {
                return Err(e);
            },
        };
        assert(I::obeys_decoding_spec() ==> decodable::<I>(bodies[8], width));
        let f9 = match decode_field::<Size, J>(bytes, &bounds, 9, Ghost(bodies)) {
            Ok(field) => field,
            Err(e) => {
                return Err(e);
            },
        };
        Ok((f0, f1, f2, f3, f4, f5, f6, f7, f8, f9))
    }
}

impl<
    A: RoundTrip,
    B: RoundTrip,
    C: RoundTrip,
    D: RoundTrip,
    E: RoundTrip,
    F: RoundTrip,
    G: RoundTrip,
    H: RoundTrip,
    I: RoundTrip,
    J: RoundTrip,
> RoundTrip for (A, B, C, D, E, F, G, H, I, J) {
    open spec fn same(&self, other: &Self) -> bool {
        &&& self.0.same(&other.0)
        &&& self.1.same(&other.1)
        &&& self.2.same(&other.2)
        &&& self.3.same(&other.3)
        &&& self.4.same(&other.4)
        &&& self.5.same(&other.5)
        &&& self.6.same(&other.6)
        &&& self.7.same(&other.7)
        &&& self.8.same(&other.8)
        &&& self.9.same(&other.9)
    }

    proof fn lemma_round_trip(&self, width: nat, outcome: Result<Self, ByteVecError>) {
        let all = seq![
            self.0.encoding(width),
            self.1.encoding(width),
            self.2.encoding(width),
            self.3.encoding(width),
            self.4.encoding(width),
            self.5.encoding(width),
            self.6.encoding(width),
            self.7.encoding(width),
            self.8.encoding(width),
            self.9.encoding(width),
        ];
        lemma_layout_len(all, width);
        lemma_parts_fit(all, width);
        lemma_tuple_frame_of_layout(all, width);
        assert(fits(all[0].len(), width));
        assert(fits(all[1].len(), width));
        assert(fits(all[2].len(), width));
        assert(fits(all[3].len(), width));
        assert(fits(all[4].len(), width));
        assert(fits(all[5].len(), width));
        assert(fits(all[6].len(), width));
        assert(fits(all[7].len(), width));
        assert(fits(all[8].len(), width));
        assert(fits(all[9].len(), width));
        match outcome {
            Ok(fields) => {
                self.0.lemma_round_trip(width, Ok(fields.0));
                self.1.lemma_round_trip(width, Ok(fields.1));
                self.2.lemma_round_trip(width, Ok(fields.2));
                self.3.lemma_round_trip(width, Ok(fields.3));
                self.4.lemma_round_trip(width, Ok(fields.4));
                self.5.lemma_round_trip(width, Ok(fields.5));
                self.6.lemma_round_trip(width, Ok(fields.6));
                self.7.lemma_round_trip(width, Ok(fields.7));
                self.8.lemma_round_trip(width, Ok(fields.8));
                self.9.lemma_round_trip(width, Ok(fields.9));
            },
            Err(e) => {
                if A::decodes_to(all[0], width, Err(e)) {
                    self.0.lemma_round_trip(width, Err(e));
                } else if B::decodes_to(all[1], width, Err(e)) {
                    self.1.lemma_round_trip(width, Err(e));
                } else if C::decodes_to(all[2], width, Err(e)) {
                    self.2.lemma_round_trip(width, Err(e));
                } else if D::decodes_to(all[3], width, Err(e)) {
                    self.3.lemma_round_trip(width, Err(e));
                } else if E::decodes_to(all[4], width, Err(e)) {
                    self.4.lemma_round_trip(width, Err(e));
                } else if F::decodes_to(all[5], width, Err(e)) {
                    self.5.lemma_round_trip(width, Err(e));
                } else if G::decodes_to(all[6], width, Err(e)) {
                    self.6.lemma_round_trip(width, Err(e));
                } else if H::decodes_to(all[7], width, Err(e)) {
                    self.7.lemma_round_trip(width, Err(e));
                } else if I::decodes_to(all[8], width, Err(e)) {
                    self.8.lemma_round_trip(width, Err(e));
                } else if J::decodes_to(all[9], width, Err(e)) {
                    self.9.lemma_round_trip(width, Err(e));
                }
            },
        }
    }
}

impl<
    A: ByteEncodable,
    B: ByteEncodable,
    C: ByteEncodable,
    D: ByteEncodable,
    E: ByteEncodable,
    F: ByteEncodable,
    G: ByteEncodable,
    H: ByteEncodable,
    I: ByteEncodable,
    J: ByteEncodable,
    K: ByteEncodable,
> ByteEncodable for (A, B, C, D, E, F, G, H, I, J, K) {
    open spec fn obeys_encoding_spec() -> bool {
        &&& A::obeys_encoding_spec()
        &&& B::obeys_encoding_spec()
        &&& C::obeys_encoding_spec()
        &&& D::obeys_encoding_spec()
        &&& E::obeys_encoding_spec()
        &&& F::obeys_encoding_spec()
        &&& G::obeys_encoding_spec()
        &&& H::obeys_encoding_spec()
        &&& I::obeys_encoding_spec()
        &&& J::obeys_encoding_spec()
        &&& K::obeys_encoding_spec()
    }

    open spec fn encoding(&self, width: nat) -> Seq<u8> {
        tuple_layout(
            seq![
                self.0.encoding(width),
                self.1.encoding(width),
                self.2.encoding(width),
                self.3.encoding(width),
                self.4.encoding(width),
                self.5.encoding(width),
                self.6.encoding(width),
                self.7.encoding(width),
                self.8.encoding(width),
                self.9.encoding(width),
                self.10.encoding(width),
            ],
            width,
        )
    }

    fn get_size<Size>(&self) -> (size: Option<Size>) where Size: BVSize {
        let ghost width = Size::width();
        let ghost s0 = Seq::<Seq<u8>>::empty();
        let acc = no_fields::<Size>();
        let ghost ok0 = true;
        let acc = add_field::<Size, A>(acc, &self.0, Ghost(s0), Ghost(ok0));
        let ghost s1 = s0.push(self.0.encoding(width));
        let ghost ok1 = ok0 && A::obeys_encoding_spec();
        let acc = add_field::<Size, B>(acc, &self.1, Ghost(s1), Ghost(ok1));
        let ghost s2 = s1.push(self.1.encoding(width));
        let ghost ok2 = ok1 && B::obeys_encoding_spec();
        let acc = add_field::<Size, C>(acc, &self.2, Ghost(s2), Ghost(ok2));
        let ghost s3 = s2.push(self.2.encoding(width));
        let ghost ok3 = ok2 && C::obeys_encoding_spec();
        let acc = add_field::<Size, D>(acc, &self.3, Ghost(s3), Ghost(ok3));
        let ghost s4 = s3.push(self.3.encoding(width));
        let ghost ok4 = ok3 && D::obeys_encoding_spec();
        let acc = add_field::<Size, E>(acc, &self.4, Ghost(s4), Ghost(ok4));
        let ghost s5 = s4.push(self.4.encoding(width));
        let ghost ok5 = ok4 && E::obeys_encoding_spec();
        let acc = add_field::<Size, F>(acc, &self.5, Ghost(s5), Ghost(ok5));
        let ghost s6 = s5.push(self.5.encoding(width));
        let ghost ok6 = ok5 && F::obeys_encoding_spec();
        let acc = add_field::<Size, G>(acc, &self.6, Ghost(s6), Ghost(ok6));
        let ghost s7 = s6.push(self.6.encoding(width));
        let ghost ok7 = ok6 && G::obeys_encoding_spec();
        let acc = add_field::<Size, H>(acc, &self.7, Ghost(s7), Ghost(ok7));
        let ghost s8 = s7.push(self.7.encoding(width));
        let ghost ok8 = ok7 && H::obeys_encoding_spec();
        let acc = add_field::<Size, I>(acc, &self.8, Ghost(s8), Ghost(ok8));
        let ghost s9 = s8.push(self.8.encoding(width));
        let ghost ok9 = ok8 && I::obeys_encoding_spec();
        let acc = add_field::<Size, J>(acc, &self.9, Ghost(s9), Ghost(ok9));
        let ghost s10 = s9.push(self.9.encoding(width));
        let ghost ok10 = ok9 && J::obeys_encoding_spec();
        let acc = add_field::<Size, K>(acc, &self.10, Ghost(s10), Ghost(ok10));
        let ghost s11 = s10.push(self.10.encoding(width));
        proof {
            assert(seq![
                self.0.encoding(width),
                self.1.encoding(width),
                self.2.encoding(width),
                self.3.encoding(width),
                self.4.encoding(width),
                self.5.encoding(width),
                self.6.encoding(width),
                self.7.encoding(width),
                self.8.encoding(width),
                self.9.encoding(width),
                self.10.encoding(width),
            ] =~= s11);
            lemma_layout_len(s11, width);
        }
        acc
    }

    fn encode<Size>(&self) -> (bytes: Result<Vec<u8>, ByteVecError>) where Size: BVSize {
        let ghost width = Size::width();
        let ghost all = seq![
            self.0.encoding(width),
            self.1.encoding(width),
            self.2.encoding(width),
            self.3.encoding(width),
            self.4.encoding(width),
            self.5.encoding(width),
            self.6.encoding(width),
            self.7.encoding(width),
            self.8.encoding(width),
            self.9.encoding(width),
            self.10.encoding(width),
        ];
        proof {
            lemma_layout_len(all, width);
        }
        let mut bodies: Vec<Vec<u8>> = Vec::new();
        match push_field::<Size, A>(&mut bodies, &self.0) {
            Ok(_) => {},
            Err(e) => {
                proof {
                    if A::obeys_encoding_spec() {
                        lemma_field_too_long(all, 0, width);
                    }
                }
                return Err(e);
            },
        }
        match push_field::<Size, B>(&mut bodies, &self.1) {
            Ok(_) => {},
            Err(e) => {
                proof {
                    if B::obeys_encoding_spec() {
                        lemma_field_too_long(all, 1, width);
                    }
                }
                return Err(e);
            },
        }
        match push_field::<Size, C>(&mut bodies, &self.2) {
            Ok(_) => {},
            Err(e) => {
                proof {
                    if C::obeys_encoding_spec() {
                        lemma_field_too_long(all, 2, width);
                    }
                }
                return Err(e);
            },
        }
        match push_field::<Size, D>(&mut bodies, &self.3) {
            Ok(_) => {},
            Err(e) => {
                proof {
                    if D::obeys_encoding_spec() {
                        lemma_field_too_long(all, 3, width);
                    }
                }
                return Err(e);
            },
        }
        match push_field::<Size, E>(&mut bodies, &self.4) {
            Ok(_) => {},
            Err(e) => {
                proof {
                    if E::obeys_encoding_spec() {
                        lemma_field_too_long(all, 4, width);
                    }
                }
                return Err(e);
            },
        }
        match push_field::<Size, F>(&mut bodies, &self.5) {
            Ok(_) => {},
            Err(e) => {
                proof {
                    if F::obeys_encoding_spec() {
                        lemma_field_too_long(all, 5, width);
                    }
                }
                return Err(e);
            },
        }
        match push_field::<Size, G>(&mut bodies, &self.6) {
            Ok(_) => {},
            Err(e) => {
                proof {
                    if G::obeys_encoding_spec() {
                        lemma_field_too_long(all, 6, width);
                    }
                }
                return Err(e);
            },
        }
        match push_field::<Size, H>(&mut bodies, &self.7) {
            Ok(_) => {},
            Err(e) => {
                proof {
                    if H::obeys_encoding_spec() {
                        lemma_field_too_long(all, 7, width);
                    }
                }
                return Err(e);
            },
        }
        match push_field::<Size, I>(&mut bodies, &self.8) {
            Ok(_) => {},
            Err(e) => {
                proof {
                    if I::obeys_encoding_spec() {
                        lemma_field_too_long(all, 8, width);
                    }
                }
                return Err(e);
            },
        }
        match push_field::<Size, J>(&mut bodies, &self.9) {
            Ok(_) => {},
            Err(e) => {
                proof {
                    if J::obeys_encoding_spec() {
                        lemma_field_too_long(all, 9, width);
                    }
                }
                return Err(e);
            },
        }
        match push_field::<Size, K>(&mut bodies, &self.10) {
            Ok(_) => {},
            Err(e) => {
                proof {
                    if K::obeys_encoding_spec() {
                        lemma_field_too_long(all, 10, width);
                    }
                }
                return Err(e);
            },
        }
        assert(Self::obeys_encoding_spec() ==> views(bodies@) =~= all);
        pack_tuple::<Size>(&bodies)
    }
}

impl<
    A: ByteDecodable,
    B: ByteDecodable,
    C: ByteDecodable,
    D: ByteDecodable,
    E: ByteDecodable,
    F: ByteDecodable,
    G: ByteDecodable,
    H: ByteDecodable,
    I: ByteDecodable,
    J: ByteDecodable,
    K: ByteDecodable,
> ByteDecodable for (A, B, C, D, E, F, G, H, I, J, K) {
    open spec fn obeys_decoding_spec() -> bool {
        &&& A::obeys_decoding_spec()
        &&& B::obeys_decoding_spec()
        &&& C::obeys_decoding_spec()
        &&& D::obeys_decoding_spec()
        &&& E::obeys_decoding_spec()
        &&& F::obeys_decoding_spec()
        &&& G::obeys_decoding_spec()
        &&& H::obeys_decoding_spec()
        &&& I::obeys_decoding_spec()
        &&& J::obeys_decoding_spec()
        &&& K::obeys_decoding_spec()
    }

    open spec fn decodes_to(
        bytes: Seq<u8>,
        width: nat,
        outcome: Result<Self, ByteVecError>,
    ) -> bool {
        match tuple_frame(bytes, 11, width) {
            Ok(bodies) => match outcome {
                Ok(fields) => {
                    &&& A::decodes_to(bodies[0], width, Ok(fields.0))
                    &&& B::decodes_to(bodies[1], width, Ok(fields.1))
                    &&& C::decodes_to(bodies[2], width, Ok(fields.2))
                    &&& D::decodes_to(bodies[3], width, Ok(fields.3))
                    &&& E::decodes_to(bodies[4], width, Ok(fields.4))
                    &&& F::decodes_to(bodies[5], width, Ok(fields.5))
                    &&& G::decodes_to(bodies[6], width, Ok(fields.6))
                    &&& H::decodes_to(bodies[7], width, Ok(fields.7))
                    &&& I::decodes_to(bodies[8], width, Ok(fields.8))
                    &&& J::decodes_to(bodies[9], width, Ok(fields.9))
                    &&& K::decodes_to(bodies[10], width, Ok(fields.10))
                },
                Err(e) => {
                    ||| A::decodes_to(bodies[0], width, Err(e))
                    ||| {
                        &&& decodable::<A>(bodies[0], width)
                        &&& B::decodes_to(bodies[1], width, Err(e))
                    }
                    ||| {
                        &&& decodable::<A>(bodies[0], width)
                        &&& decodable::<B>(bodies[1], width)
                        &&& C::decodes_to(bodies[2], width, Err(e))
                    }
                    ||| {
                        &&& decodable::<A>(bodies[0], width)
                        &&& decodable::<B>(bodies[1], width)
                        &&& decodable::<C>(bodies[2], width)
                        &&& D::decodes_to(bodies[3], width, Err(e))
                    }
                    ||| {
                        &&& decodable::<A>(bodies[0], width)
                        &&& decodable::<B>(bodies[1], width)
                        &&& decodable::<C>(bodies[2], width)
                        &&& decodable::<D>(bodies[3], width)
                        &&& E::decodes_to(bodies[4], width, Err(e))
                    }
                    ||| {
                        &&& decodable::<A>(bodies[0], width)
                        &&& decodable::<B>(bodies[1], width)
                        &&& decodable::<C>(bodies[2], width)
                        &&& decodable::<D>(bodies[3], width)
                        &&& decodable::<E>(bodies[4], width)
                        &&& F::decodes_to(bodies[5], width, Err(e))
                    }
                    ||| {
                        &&& decodable::<A>(bodies[0], width)
                        &&& decodable::<B>(bodies[1], width)
                        &&& decodable::<C>(bodies[2], width)
                        &&& decodable::<D>(bodies[3], width)
                        &&& decodable::<E>(bodies[4], width)
                        &&& decodable::<F>(bodies[5], width)
                        &&& G::decodes_to(bodies[6], width, Err(e))
                    }
                    ||| {
                        &&& decodable::<A>(bodies[0], width)
                        &&& decodable::<B>(bodies[1], width)
                        &&& decodable::<C>(bodies[2], width)
                        &&& decodable::<D>(bodies[3], width)
                        &&& decodable::<E>(bodies[4], width)
                        &&& decodable::<F>(bodies[5], width)
                        &&& decodable::<G>(bodies[6], width)
                        &&& H::decodes_to(bodies[7], width, Err(e))
                    }
                    ||| {
                        &&& decodable::<A>(bodies[0], width)
                        &&& decodable::<B>(bodies[1], width)
                        &&& decodable::<C>(bodies[2], width)
                        &&& decodable::<D>(bodies[3], width)
                        &&& decodable::<E>(bodies[4], width)
                        &&& decodable::<F>(bodies[5], width)
                        &&& decodable::<G>(bodies[6], width)
                        &&& decodable::<H>(bodies[7], width)
                        &&& I::decodes_to(bodies[8], width, Err(e))
                    }
                    ||| {
                        &&& decodable::<A>(bodies[0], width)
                        &&& decodable::<B>(bodies[1], width)
                        &&& decodable::<C>(bodies[2], width)
                        &&& decodable::<D>(bodies[3], width)
                        &&& decodable::<E>(bodies[4], width)
                        &&& decodable::<F>(bodies[5], width)
                        &&& decodable::<G>(bodies[6], width)
                        &&& decodable::<H>(bodies[7], width)
                        &&& decodable::<I>(bodies[8], width)
                        &&& J::decodes_to(bodies[9], width, Err(e))
                    }
                    ||| {
                        &&& decodable::<A>(bodies[0], width)
                        &&& decodable::<B>(bodies[1], width)
                        &&& decodable::<C>(bodies[2], width)
                        &&& decodable::<D>(bodies[3], width)
                        &&& decodable::<E>(bodies[4], width)
                        &&& decodable::<F>(bodies[5], width)
                        &&& decodable::<G>(bodies[6], width)
                        &&& decodable::<H>(bodies[7], width)
                        &&& decodable::<I>(bodies[8], width)
                        &&& decodable::<J>(bodies[9], width)
                        &&& K::decodes_to(bodies[10], width, Err(e))
                    }
                },
            },
            Err(e) => outcome matches Err(x) && x == e,
        }
    }

    fn decode<Size>(bytes: &[u8]) -> (outcome: Result<Self, ByteVecError>) where Size: BVSize {
        let ghost width = Size::width();
        let bounds = match read_tuple_frame::<Size>(bytes, 11) {
            Ok(bounds) => bounds,
            Err(e) => {
                return Err(e);
            },
        };
        let ghost bodies = tuple_frame(bytes@, 11, width)->Ok_0;
        let f0 = match decode_field::<Size, A>(bytes, &bounds, 0, Ghost(bodies)) {
            Ok(field) => field,
            Err(e) => {
                return Err(e);
            },
        };
        assert(A::obeys_decoding_spec() ==> decodable::<A>(bodies[0], width));
        let f1 = match decode_field::<Size, B>(bytes, &bounds, 1, Ghost(bodies)) {
            Ok(field) => field,
            Err(e) => {
                return Err(e);
            },
        };
        assert(B::obeys_decoding_spec() ==> decodable::<B>(bodies[1], width));
        let f2 = match decode_field::<Size, C>(bytes, &bounds, 2, Ghost(bodies)) {
            Ok(field) => field,
            Err(e) => {
                return Err(e);
            },
        };
        assert(C::obeys_decoding_spec() ==> decodable::<C>(bodies[2], width));
        let f3 = match decode_field::<Size, D>(bytes, &bounds, 3, Ghost(bodies)) {
            Ok(field) => field,
            Err(e) => {
                return Err(e);
            },
        };
        assert(D::obeys_decoding_spec() ==> decodable::<D>(bodies[3], width));
        let f4 = match decode_field::<Size, E>(bytes, &bounds, 4, Ghost(bodies)) {
            Ok(field) => field,
            Err(e) => {
                return Err(e);
            },
        };
        assert(E::obeys_decoding_spec() ==> decodable::<E>(bodies[4], width));
        let f5 = match decode_field::<Size, F>(bytes, &bounds, 5, Ghost(bodies)) {
            Ok(field) => field,
            Err(e) => {
                return Err(e);
            },
        };
        assert(F::obeys_decoding_spec() ==> decodable::<F>(bodies[5], width));
        let f6 = match decode_field::<Size, G>(bytes, &bounds, 6, Ghost(bodies)) {
            Ok(field) => field,
            Err(e) => {
                return Err(e);
            },
        };
        assert(G::obeys_decoding_spec() ==> decodable::<G>(bodies[6], width));
        let f7 = match decode_field::<Size, H>(bytes, &bounds, 7, Ghost(bodies)) {
            Ok(field) => field,
            Err(e) => {
                return Err(e);
            },
        };
        assert(H::obeys_decoding_spec() ==> decodable::<H>(bodies[7], width));
        let f8 = match decode_field::<Size, I>(bytes, &bounds, 8, Ghost(bodies)) {
            Ok(field) => field,
            Err(e) => {
                return Err(e);
            },
        };
        assert(I::obeys_decoding_spec() ==> decodable::<I>(bodies[8], width));
        let f9 = match decode_field::<Size, J>(bytes, &bounds, 9, Ghost(bodies)) {
            Ok(field) => field,
            Err(e) => {
                return Err(e);
            },
        };
        assert(J::obeys_decoding_spec() ==> decodable::<J>(bodies[9], width));
        let f10 = match decode_field::<Size, K>(bytes, &bounds, 10, Ghost(bodies)) {
            Ok(field) => field,
            Err(e) => {
                return Err(e);
            },
        };
        Ok((f0, f1, f2, f3, f4, f5, f6, f7, f8, f9, f10))
    }
}

impl<
    A: RoundTrip,
    B: RoundTrip,
    C: RoundTrip,
    D: RoundTrip,
    E: RoundTrip,
    F: RoundTrip,
    G: RoundTrip,
    H: RoundTrip,
    I: RoundTrip,
    J: RoundTrip,
    K: RoundTrip,
> RoundTrip for (A, B, C, D, E, F, G, H, I, J, K) {
    open spec fn same(&self, other: &Self) -> bool {
        &&& self.0.same(&other.0)
        &&& self.1.same(&other.1)
        &&& self.2.same(&other.2)
        &&& self.3.same(&other.3)
        &&& self.4.same(&other.4)
        &&& self.5.same(&other.5)
        &&& self.6.same(&other.6)
        &&& self.7.same(&other.7)
        &&& self.8.same(&other.8)
        &&& self.9.same(&other.9)
        &&& self.10.same(&other.10)
    }

    proof fn lemma_round_trip(&self, width: nat, outcome: Result<Self, ByteVecError>) {
        let all = seq![
            self.0.encoding(width),
            self.1.encoding(width),
            self.2.encoding(width),
            self.3.encoding(width),
            self.4.encoding(width),
            self.5.encoding(width),
            self.6.encoding(width),
            self.7.encoding(width),
            self.8.encoding(width),
            self.9.encoding(width),
            self.10.encoding(width),
        ];
        lemma_layout_len(all, width);
        lemma_parts_fit(all, width);
        lemma_tuple_frame_of_layout(all, width);
        assert(fits(all[0].len(), width));
        assert(fits(all[1].len(), width));
        assert(fits(all[2].len(), width));
        assert(fits(all[3].len(), width));
        assert(fits(all[4].len(), width));
        assert(fits(all[5].len(), width));
        assert(fits(all[6].len(), width));
        assert(fits(all[7].len(), width));
        assert(fits(all[8].len(), width));
        assert(fits(all[9].len(), width));
        assert(fits(all[10].len(), width));
        match outcome {
            Ok(fields) => {
                self.0.lemma_round_trip(width, Ok(fields.0));
                self.1.lemma_round_trip(width, Ok(fields.1));
                self.2.lemma_round_trip(width, Ok(fields.2));
                self.3.lemma_round_trip(width, Ok(fields.3));
                self.4.lemma_round_trip(width, Ok(fields.4));
                self.5.lemma_round_trip(width, Ok(fields.5));
                self.6.lemma_round_trip(width, Ok(fields.6));
                self.7.lemma_round_trip(width, Ok(fields.7));
                self.8.lemma_round_trip(width, Ok(fields.8));
                self.9.lemma_round_trip(width, Ok(fields.9));
                self.10.lemma_round_trip(width, Ok(fields.10));
            },
            Err(e) => {
                if A::decodes_to(all[0], width, Err(e)) {
                    self.0.lemma_round_trip(width, Err(e));
                } else if B::decodes_to(all[1], width, Err(e)) {
                    self.1.lemma_round_trip(width, Err(e));
                } else if C::decodes_to(all[2], width, Err(e)) {
                    self.2.lemma_round_trip(width, Err(e));
                } else if D::decodes_to(all[3], width, Err(e)) {
                    self.3.lemma_round_trip(width, Err(e));
                } else if E::decodes_to(all[4], width, Err(e)) {
                    self.4.lemma_round_trip(width, Err(e));
                } else if F::decodes_to(all[5], width, Err(e)) {
                    self.5.lemma_round_trip(width, Err(e));
                } else if G::decodes_to(all[6], width, Err(e)) {
                    self.6.lemma_round_trip(width, Err(e));
                } else if H::decodes_to(all[7], width, Err(e)) {
                    self.7.lemma_round_trip(width, Err(e));
                } else if I::decodes_to(all[8], width, Err(e)) {
                    self.8.lemma_round_trip(width, Err(e));
                } else if J::decodes_to(all[9], width, Err(e)) {
                    self.9.lemma_round_trip(width, Err(e));
                } else if K::decodes_to(all[10], width, Err(e)) {
                    self.10.lemma_round_trip(width, Err(e));
                }
            },
        }
    }
}

impl<
    A: ByteEncodable,
    B: ByteEncodable,
    C: ByteEncodable,
    D: ByteEncodable,
    E: ByteEncodable,
    F: ByteEncodable,
    G: ByteEncodable,
    H: ByteEncodable,
    I: ByteEncodable,
    J: ByteEncodable,
    K: ByteEncodable,
    L: ByteEncodable,
> ByteEncodable for (A, B, C, D, E, F, G, H, I, J, K, L) {
    open spec fn obeys_encoding_spec() -> bool {
        &&& A::obeys_encoding_spec()
        &&& B::obeys_encoding_spec()
        &&& C::obeys_encoding_spec()
        &&& D::obeys_encoding_spec()
        &&& E::obeys_encoding_spec()
        &&& F::obeys_encoding_spec()
        &&& G::obeys_encoding_spec()
        &&& H::obeys_encoding_spec()
        &&& I::obeys_encoding_spec()
        &&& J::obeys_encoding_spec()
        &&& K::obeys_encoding_spec()
        &&& L::obeys_encoding_spec()
    }

    open spec fn encoding(&self, width: nat) -> Seq<u8> {
        tuple_layout(
            seq![
                self.0.encoding(width),
                self.1.encoding(width),
                self.2.encoding(width),
                self.3.encoding(width),
                self.4.encoding(width),
                self.5.encoding(width),
                self.6.encoding(width),
                self.7.encoding(width),
                self.8.encoding(width),
                self.9.encoding(width),
                self.10.encoding(width),
                self.11.encoding(width),
            ],
            width,
        )
    }

    fn get_size<Size>(&self) -> (size: Option<Size>) where Size: BVSize {
        let ghost width = Size::width();
        let ghost s0 = Seq::<Seq<u8>>::empty();
        let acc = no_fields::<Size>();
        let ghost ok0 = true;
        let acc = add_field::<Size, A>(acc, &self.0, Ghost(s0), Ghost(ok0));
        let ghost s1 = s0.push(self.0.encoding(width));
        let ghost ok1 = ok0 && A::obeys_encoding_spec();
        let acc = add_field::<Size, B>(acc, &self.1, Ghost(s1), Ghost(ok1));
        let ghost s2 = s1.push(self.1.encoding(width));
        let ghost ok2 = ok1 && B::obeys_encoding_spec();
        let acc = add_field::<Size, C>(acc, &self.2, Ghost(s2), Ghost(ok2));
        let ghost s3 = s2.push(self.2.encoding(width));
        let ghost ok3 = ok2 && C::obeys_encoding_spec();
        let acc = add_field::<Size, D>(acc, &self.3, Ghost(s3), Ghost(ok3));
        let ghost s4 = s3.push(self.3.encoding(width));
        let ghost ok4 = ok3 && D::obeys_encoding_spec();
        let acc = add_field::<Size, E>(acc, &self.4, Ghost(s4), Ghost(ok4));
        let ghost s5 = s4.push(self.4.encoding(width));
        let ghost ok5 = ok4 && E::obeys_encoding_spec();
        let acc = add_field::<Size, F>(acc, &self.5, Ghost(s5), Ghost(ok5));
        let ghost s6 = s5.push(self.5.encoding(width));
        let ghost ok6 = ok5 && F::obeys_encoding_spec();
        let acc = add_field::<Size, G>(acc, &self.6, Ghost(s6), Ghost(ok6));
        let ghost s7 = s6.push(self.6.encoding(width));
        let ghost ok7 = ok6 && G::obeys_encoding_spec();
        let acc = add_field::<Size, H>(acc, &self.7, Ghost(s7), Ghost(ok7));
        let ghost s8 = s7.push(self.7.encoding(width));
        let ghost ok8 = ok7 && H::obeys_encoding_spec();
        let acc = add_field::<Size, I>(acc, &self.8, Ghost(s8), Ghost(ok8));
        let ghost s9 = s8.push(self.8.encoding(width));
        let ghost ok9 = ok8 && I::obeys_encoding_spec();
        let acc = add_field::<Size, J>(acc, &self.9, Ghost(s9), Ghost(ok9));
        let ghost s10 = s9.push(self.9.encoding(width));
        let ghost ok10 = ok9 && J::obeys_encoding_spec();
        let acc = add_field::<Size, K>(acc, &self.10, Ghost(s10), Ghost(ok10));
        let ghost s11 = s10.push(self.10.encoding(width));
        let ghost ok11 = ok10 && K::obeys_encoding_spec();
        let acc = add_field::<Size, L>(acc, &self.11, Ghost(s11), Ghost(ok11));
        let ghost s12 = s11.push(self.11.encoding(width));
        proof {
            assert(seq![
                self.0.encoding(width),
                self.1.encoding(width),
                self.2.encoding(width),
                self.3.encoding(width),
                self.4.encoding(width),
                self.5.encoding(width),
                self.6.encoding(width),
                self.7.encoding(width),
                self.8.encoding(width),
                self.9.encoding(width),
                self.10.encoding(width),
                self.11.encoding(width),
            ] =~= s12);
            lemma_layout_len(s12, width);
        }
        acc
    }

    fn encode<Size>(&self) -> (bytes: Result<Vec<u8>, ByteVecError>) where Size: BVSize {
        let ghost width = Size::width();
        let ghost all = seq![
            self.0.encoding(width),
            self.1.encoding(width),
            self.2.encoding(width),
            self.3.encoding(width),
            self.4.encoding(width),
            self.5.encoding(width),
            self.6.encoding(width),
            self.7.encoding(width),
            self.8.encoding(width),
            self.9.encoding(width),
            self.10.encoding(width),
            self.11.encoding(width),
        ];
        proof {
            lemma_layout_len(all, width);
        }
        let mut bodies: Vec<Vec<u8>> = Vec::new();
        match push_field::<Size, A>(&mut bodies, &self.0) {
            Ok(_) => {},
            Err(e) => {
                proof {
                    if A::obeys_encoding_spec() {
                        lemma_field_too_long(all, 0, width);
                    }
                }
                return Err(e);
            },
        }
        match push_field::<Size, B>(&mut bodies, &self.1) {
            Ok(_) => {},
            Err(e) => {
                proof {
                    if B::obeys_encoding_spec() {
                        lemma_field_too_long(all, 1, width);
                    }
                }
                return Err(e);
            },
        }
        match push_field::<Size, C>(&mut bodies, &self.2) {
            Ok(_) => {},
            Err(e) => {
                proof {
                    if C::obeys_encoding_spec() {
                        lemma_field_too_long(all, 2, width);
                    }
                }
                return Err(e);
            },
        }
        match push_field::<Size, D>(&mut bodies, &self.3) {
            Ok(_) => {},
            Err(e) => {
                proof {
                    if D::obeys_encoding_spec() {
                        lemma_field_too_long(all, 3, width);
                    }
                }
                return Err(e);
            },
        }
        match push_field::<Size, E>(&mut bodies, &self.4) {
            Ok(_) => {},
            Err(e) => {
                proof {
                    if E::obeys_encoding_spec() {
                        lemma_field_too_long(all, 4, width);
                    }
                }
                return Err(e);
            },
        }
        match push_field::<Size, F>(&mut bodies, &self.5) {
            Ok(_) => {},
            Err(e) => {
                proof {
                    if F::obeys_encoding_spec() {
                        lemma_field_too_long(all, 5, width);
                    }
                }
                return Err(e);
            },
        }
        match push_field::<Size, G>(&mut bodies, &self.6) {
            Ok(_) => {},
            Err(e) => {
                proof {
                    if G::obeys_encoding_spec() {
                        lemma_field_too_long(all, 6, width);
                    }
                }
                return Err(e);
            },
        }
        match push_field::<Size, H>(&mut bodies, &self.7) {
            Ok(_) => {},
            Err(e) => {
                proof {
                    if H::obeys_encoding_spec() {
                        lemma_field_too_long(all, 7, width);
                    }
                }
                return Err(e);
            },
        }
        match push_field::<Size, I>(&mut bodies, &self.8) {
            Ok(_) => {},
            Err(e) => {
                proof {
                    if I::obeys_encoding_spec() {
                        lemma_field_too_long(all, 8, width);
                    }
                }
                return Err(e);
            },
        }
        match push_field::<Size, J>(&mut bodies, &self.9) {
            Ok(_) => {},
            Err(e) => {
                proof {
                    if J::obeys_encoding_spec() {
                        lemma_field_too_long(all, 9, width);
                    }
                }
                return Err(e);
            },
        }
        match push_field::<Size, K>(&mut bodies, &self.10) {
            Ok(_) => {},
            Err(e) => {
                proof {
                    if K::obeys_encoding_spec() {
                        lemma_field_too_long(all, 10, width);
                    }
                }
                return Err(e);
            },
        }
        match push_field::<Size, L>(&mut bodies, &self.11) {
            Ok(_) => {},
            Err(e) => {
                proof {
                    if L::obeys_encoding_spec() {
                        lemma_field_too_long(all, 11, width);
                    }
                }
                return Err(e);
            },
        }
        assert(Self::obeys_encoding_spec() ==> views(bodies@) =~= all);
        pack_tuple::<Size>(&bodies)
    }
}

impl<
    A: ByteDecodable,
    B: ByteDecodable,
    C: ByteDecodable,
    D: ByteDecodable,
    E: ByteDecodable,
    F: ByteDecodable,
    G: ByteDecodable,
    H: ByteDecodable,
    I: ByteDecodable,
    J: ByteDecodable,
    K: ByteDecodable,
    L: ByteDecodable,
> ByteDecodable for (A, B, C, D, E, F, G, H, I, J, K, L) {
    open spec fn obeys_decoding_spec() -> bool {
        &&& A::obeys_decoding_spec()
        &&& B::obeys_decoding_spec()
        &&& C::obeys_decoding_spec()
        &&& D::obeys_decoding_spec()
        &&& E::obeys_decoding_spec()
        &&& F::obeys_decoding_spec()
        &&& G::obeys_decoding_spec()
        &&& H::obeys_decoding_spec()
        &&& I::obeys_decoding_spec()
        &&& J::obeys_decoding_spec()
        &&& K::obeys_decoding_spec()
        &&& L::obeys_decoding_spec()
    }

    open spec fn decodes_to(
        bytes: Seq<u8>,
        width: nat,
        outcome: Result<Self, ByteVecError>,
    ) -> bool {
        match tuple_frame(bytes, 12, width) {
            Ok(bodies) => match outcome {
                Ok(fields) => {
                    &&& A::decodes_to(bodies[0], width, Ok(fields.0))
                    &&& B::decodes_to(bodies[1], width, Ok(fields.1))
                    &&& C::decodes_to(bodies[2], width, Ok(fields.2))
                    &&& D::decodes_to(bodies[3], width, Ok(fields.3))
                    &&& E::decodes_to(bodies[4], width, Ok(fields.4))
                    &&& F::decodes_to(bodies[5], width, Ok(fields.5))
                    &&& G::decodes_to(bodies[6], width, Ok(fields.6))
                    &&& H::decodes_to(bodies[7], width, Ok(fields.7))
                    &&& I::decodes_to(bodies[8], width, Ok(fields.8))
                    &&& J::decodes_to(bodies[9], width, Ok(fields.9))
                    &&& K::decodes_to(bodies[10], width, Ok(fields.10))
                    &&& L::decodes_to(bodies[11], width, Ok(fields.11))
                },
                Err(e) => {
                    ||| A::decodes_to(bodies[0], width, Err(e))
                    ||| {
                        &&& decodable::<A>(bodies[0], width)
                        &&& B::decodes_to(bodies[1], width, Err(e))
                    }
                    ||| {
                        &&& decodable::<A>(bodies[0], width)
                        &&& decodable::<B>(bodies[1], width)
                        &&& C::decodes_to(bodies[2], width, Err(e))
                    }
                    ||| {
                        &&& decodable::<A>(bodies[0], width)
                        &&& decodable::<B>(bodies[1], width)
                        &&& decodable::<C>(bodies[2], width)
                        &&& D::decodes_to(bodies[3], width, Err(e))
                    }
                    ||| {
                        &&& decodable::<A>(bodies[0], width)
                        &&& decodable::<B>(bodies[1], width)
                        &&& decodable::<C>(bodies[2], width)
                        &&& decodable::<D>(bodies[3], width)
                        &&& E::decodes_to(bodies[4], width, Err(e))
                    }
                    ||| {
                        &&& decodable::<A>(bodies[0], width)
                        &&& decodable::<B>(bodies[1], width)
                        &&& decodable::<C>(bodies[2], width)
                        &&& decodable::<D>(bodies[3], width)
                        &&& decodable::<E>(bodies[4], width)
                        &&& F::decodes_to(bodies[5], width, Err(e))
                    }
                    ||| {
                        &&& decodable::<A>(bodies[0], width)
                        &&& decodable::<B>(bodies[1], width)
                        &&& decodable::<C>(bodies[2], width)
                        &&& decodable::<D>(bodies[3], width)
                        &&& decodable::<E>(bodies[4], width)
                        &&& decodable::<F>(bodies[5], width)
                        &&& G::decodes_to(bodies[6], width, Err(e))
                    }
                    ||| {
                        &&& decodable::<A>(bodies[0], width)
                        &&& decodable::<B>(bodies[1], width)
                        &&& decodable::<C>(bodies[2], width)
                        &&& decodable::<D>(bodies[3], width)
                        &&& decodable::<E>(bodies[4], width)
                        &&& decodable::<F>(bodies[5], width)
                        &&& decodable::<G>(bodies[6], width)
                        &&& H::decodes_to(bodies[7], width, Err(e))
                    }
                    ||| {
                        &&& decodable::<A>(bodies[0], width)
                        &&& decodable::<B>(bodies[1], width)
                        &&& decodable::<C>(bodies[2], width)
                        &&& decodable::<D>(bodies[3], width)
                        &&& decodable::<E>(bodies[4], width)
                        &&& decodable::<F>(bodies[5], width)
                        &&& decodable::<G>(bodies[6], width)
                        &&& decodable::<H>(bodies[7], width)
                        &&& I::decodes_to(bodies[8], width, Err(e))
                    }
                    ||| {
                        &&& decodable::<A>(bodies[0], width)
                        &&& decodable::<B>(bodies[1], width)
                        &&& decodable::<C>(bodies[2], width)
                        &&& decodable::<D>(bodies[3], width)
                        &&& decodable::<E>(bodies[4], width)
                        &&& decodable::<F>(bodies[5], width)
                        &&& decodable::<G>(bodies[6], width)
                        &&& decodable::<H>(bodies[7], width)
                        &&& decodable::<I>(bodies[8], width)
                        &&& J::decodes_to(bodies[9], width, Err(e))
                    }
                    ||| {
                        &&& decodable::<A>(bodies[0], width)
                        &&& decodable::<B>(bodies[1], width)
                        &&& decodable::<C>(bodies[2], width)
                        &&& decodable::<D>(bodies[3], width)
                        &&& decodable::<E>(bodies[4], width)
                        &&& decodable::<F>(bodies[5], width)
                        &&& decodable::<G>(bodies[6], width)
                        &&& decodable::<H>(bodies[7], width)
                        &&& decodable::<I>(bodies[8], width)
                        &&& decodable::<J>(bodies[9], width)
                        &&& K::decodes_to(bodies[10], width, Err(e))
                    }
                    ||| {
                        &&& decodable::<A>(bodies[0], width)
                        &&& decodable::<B>(bodies[1], width)
                        &&& decodable::<C>(bodies[2], width)
                        &&& decodable::<D>(bodies[3], width)
                        &&& decodable::<E>(bodies[4], width)
                        &&& decodable::<F>(bodies[5], width)
                        &&& decodable::<G>(bodies[6], width)
                        &&& decodable::<H>(bodies[7], width)
                        &&& decodable::<I>(bodies[8], width)
                        &&& decodable::<J>(bodies[9], width)
                        &&& decodable::<K>(bodies[10], width)
                        &&& L::decodes_to(bodies[11], width, Err(e))
                    }
                },
            },
            Err(e) => outcome matches Err(x) && x == e,
        }
    }

    fn decode<Size>(bytes: &[u8]) -> (outcome: Result<Self, ByteVecError>) where Size: BVSize {
        let ghost width = Size::width();
        let bounds = match read_tuple_frame::<Size>(bytes, 12) {
            Ok(bounds) => bounds,
            Err(e) => {
                return Err(e);
            },
        };
        let ghost bodies = tuple_frame(bytes@, 12, width)->Ok_0;
        let f0 = match decode_field::<Size, A>(bytes, &bounds, 0, Ghost(bodies)) {
            Ok(field) => field,
            Err(e) => {
                return Err(e);
            },
        };
        assert(A::obeys_decoding_spec() ==> decodable::<A>(bodies[0], width));
        let f1 = match decode_field::<Size, B>(bytes, &bounds, 1, Ghost(bodies)) {
            Ok(field) => field,
            Err(e) => {
                return Err(e);
            },
        };
        assert(B::obeys_decoding_spec() ==> decodable::<B>(bodies[1], width));
        let f2 = match decode_field::<Size, C>(bytes, &bounds, 2, Ghost(bodies)) {
            Ok(field) => field,
            Err(e) => {
                return Err(e);
            },
        };
        assert(C::obeys_decoding_spec() ==> decodable::<C>(bodies[2], width));
        let f3 = match decode_field::<Size, D>(bytes, &bounds, 3, Ghost(bodies)) {
            Ok(field) => field,
            Err(e) => {
                return Err(e);
            },
        };
        assert(D::obeys_decoding_spec() ==> decodable::<D>(bodies[3], width));
        let f4 = match decode_field::<Size, E>(bytes, &bounds, 4, Ghost(bodies)) {
            Ok(field) => field,
            Err(e) => {
                return Err(e);
            },
        };
        assert(E::obeys_decoding_spec() ==> decodable::<E>(bodies[4], width));
        let f5 = match decode_field::<Size, F>(bytes, &bounds, 5, Ghost(bodies)) {
            Ok(field) => field,
            Err(e) => {
                return Err(e);
            },
        };
        assert(F::obeys_decoding_spec() ==> decodable::<F>(bodies[5], width));
        let f6 = match decode_field::<Size, G>(bytes, &bounds, 6, Ghost(bodies)) {
            Ok(field) => field,
            Err(e) => {
                return Err(e);
            },
        };
        assert(G::obeys_decoding_spec() ==> decodable::<G>(bodies[6], width));
        let f7 = match decode_field::<Size, H>(bytes, &bounds, 7, Ghost(bodies)) {
            Ok(field) => field,
            Err(e) => {
                return Err(e);
            },
        };
        assert(H::obeys_decoding_spec() ==> decodable::<H>(bodies[7], width));
        let f8 = match decode_field::<Size, I>(bytes, &bounds, 8, Ghost(bodies)) {
            Ok(field) => field,
            Err(e) => {
                return Err(e);
            },
        };
        assert(I::obeys_decoding_spec() ==> decodable::<I>(bodies[8], width));
        let f9 = match decode_field::<Size, J>(bytes, &bounds, 9, Ghost(bodies)) {
            Ok(field) => field,
            Err(e) => {
                return Err(e);
            },
        };
        assert(J::obeys_decoding_spec() ==> decodable::<J>(bodies[9], width));
        let f10 = match decode_field::<Size, K>(bytes, &bounds, 10, Ghost(bodies)) {
            Ok(field) => field,
            Err(e) => {
                return Err(e);
            },
        };
        assert(K::obeys_decoding_spec() ==> decodable::<K>(bodies[10], width));
        let f11 = match decode_field::<Size, L>(bytes, &bounds, 11, Ghost(bodies)) {
            Ok(field) => field,
            Err(e) => {
                return Err(e);
            },
        };
        Ok((f0, f1, f2, f3, f4, f5, f6, f7, f8, f9, f10, f11))
    }
}

impl<
    A: RoundTrip,
    B: RoundTrip,
    C: RoundTrip,
    D: RoundTrip,
    E: RoundTrip,
    F: RoundTrip,
    G: RoundTrip,
    H: RoundTrip,
    I: RoundTrip,
    J: RoundTrip,
    K: RoundTrip,
    L: RoundTrip,
> RoundTrip for (A, B, C, D, E, F, G, H, I, J, K, L) {
    open spec fn same(&self, other: &Self) -> bool {
        &&& self.0.same(&other.0)
        &&& self.1.same(&other.1)
        &&& self.2.same(&other.2)
        &&& self.3.same(&other.3)
        &&& self.4.same(&other.4)
        &&& self.5.same(&other.5)
        &&& self.6.same(&other.6)
        &&& self.7.same(&other.7)
        &&& self.8.same(&other.8)
        &&& self.9.same(&other.9)
        &&& self.10.same(&other.10)
        &&& self.11.same(&other.11)
    }

    proof fn lemma_round_trip(&self, width: nat, outcome: Result<Self, ByteVecError>) {
        let all = seq![
            self.0.encoding(width),
            self.1.encoding(width),
            self.2.encoding(width),
            self.3.encoding(width),
            self.4.encoding(width),
            self.5.encoding(width),
            self.6.encoding(width),
            self.7.encoding(width),
            self.8.encoding(width),
            self.9.encoding(width),
            self.10.encoding(width),
            self.11.encoding(width),
        ];
        lemma_layout_len(all, width);
        lemma_parts_fit(all, width);
        lemma_tuple_frame_of_layout(all, width);
        assert(fits(all[0].len(), width));
        assert(fits(all[1].len(), width));
        assert(fits(all[2].len(), width));
        assert(fits(all[3].len(), width));
        assert(fits(all[4].len(), width));
        assert(fits(all[5].len(), width));
        assert(fits(all[6].len(), width));
        assert(fits(all[7].len(), width));
        assert(fits(all[8].len(), width));
        assert(fits(all[9].len(), width));
        assert(fits(all[10].len(), width));
        assert(fits(all[11].len(), width));
        match outcome {
            Ok(fields) => {
                self.0.lemma_round_trip(width, Ok(fields.0));
                self.1.lemma_round_trip(width, Ok(fields.1));
                self.2.lemma_round_trip(width, Ok(fields.2));
                self.3.lemma_round_trip(width, Ok(fields.3));
                self.4.lemma_round_trip(width, Ok(fields.4));
                self.5.lemma_round_trip(width, Ok(fields.5));
                self.6.lemma_round_trip(width, Ok(fields.6));
                self.7.lemma_round_trip(width, Ok(fields.7));
                self.8.lemma_round_trip(width, Ok(fields.8));
                self.9.lemma_round_trip(width, Ok(fields.9));
                self.10.lemma_round_trip(width, Ok(fields.10));
                self.11.lemma_round_trip(width, Ok(fields.11));
            },
            Err(e) => {
                if A::decodes_to(all[0], width, Err(e)) {
                    self.0.lemma_round_trip(width, Err(e));
                } else if B::decodes_to(all[1], width, Err(e)) {
                    self.1.lemma_round_trip(width, Err(e));
                } else if C::decodes_to(all[2], width, Err(e)) {
                    self.2.lemma_round_trip(width, Err(e));
                } else if D::decodes_to(all[3], width, Err(e)) {
                    self.3.lemma_round_trip(width, Err(e));
                } else if E::decodes_to(all[4], width, Err(e)) {
                    self.4.lemma_round_trip(width, Err(e));
                } else if F::decodes_to(all[5], width, Err(e)) {
                    self.5.lemma_round_trip(width, Err(e));
                } else if G::decodes_to(all[6], width, Err(e)) {
                    self.6.lemma_round_trip(width, Err(e));
                } else if H::decodes_to(all[7], width, Err(e)) {
                    self.7.lemma_round_trip(width, Err(e));
                } else if I::decodes_to(all[8], width, Err(e)) {
                    self.8.lemma_round_trip(width, Err(e));
                } else if J::decodes_to(all[9], width, Err(e)) {
                    self.9.lemma_round_trip(width, Err(e));
                } else if K::decodes_to(all[10], width, Err(e)) {
                    self.10.lemma_round_trip(width, Err(e));
                } else if L::decodes_to(all[11], width, Err(e)) {
                    self.11.lemma_round_trip(width, Err(e));
                }
            },
        }
    }
}

} // verus!
