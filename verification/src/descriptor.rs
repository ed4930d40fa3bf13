//! Descriptor/reflection layer: per-type, once-computed metadata that
//! records each field's declaration name, in-memory offset and size, and
//! whether it is eligible for the fast path.
//!
//! A descriptor is built once, at a type's registration point, from the
//! declared field list and the active backend's
//! [`CheckPrimitiveTypeSize`] declaration; it is never mutated afterwards.
//! Eligibility of a field holds only when its declared type is a
//! fixed-width numeric primitive, the backend encodes that primitive at
//! exactly its in-memory width, and the backend's wire byte order agrees
//! with the in-memory byte order.

use vstd::prelude::*;

use crate::traits::CheckPrimitiveTypeSize;
use crate::traits::PrimitiveKind;

verus! {

/// How a field's declared type is classified for encoding. Everything but
/// a fixed-width primitive needs custom logic and so disqualifies a field
/// from the fast path.
#[derive(Clone, Copy, PartialEq, Eq, Structural, Debug)]
pub enum FieldKind {
    /// A fixed-width numeric primitive.
    Primitive(PrimitiveKind),
    /// Length-framed text.
    Text,
    /// A length-framed byte sequence.
    Bytes,
    /// The compact sign-folded variable-length integer.
    VarInt,
    /// An optional value behind a presence flag.
    Optional,
    /// A nested aggregate.
    Nested,
    /// An enum behind a persisted discriminant.
    Enum,
    /// A sequence of elements.
    Sequence,
}

/// What a type declares per field at registration: name, classification,
/// and in-memory byte size.
#[derive(Clone, Copy, Debug)]
pub struct FieldSpec {
    pub name: &'static str,
    pub kind: FieldKind,
    pub size: usize,
}

/// Once-computed per-field layout: name, in-memory byte offset, in-memory
/// byte size, and the fast-path eligibility flag.
#[derive(Clone, Copy, Debug)]
pub struct FieldDescriptor {
    pub name: &'static str,
    pub offset: usize,
    pub size: usize,
    pub eligible: bool,
}

/// A field is fast-path eligible exactly when it is a fixed-width numeric
/// primitive whose wire width equals its in-memory width under the active
/// backend, and no byte-order conversion is needed.
pub open spec fn spec_field_eligible<C: CheckPrimitiveTypeSize>(kind: FieldKind) -> bool {
    match kind {
        FieldKind::Primitive(p) => C::spec_is_sized(p) && C::spec_byte_order_agrees(),
        _ => false,
    }
}

/// The packed in-memory size of the first `k` declared fields.
pub open spec fn sizes_prefix(specs: Seq<FieldSpec>, k: int) -> nat
    decreases k,
{
    if k <= 0 {
        0
    } else {
        sizes_prefix(specs, k - 1) + specs[k - 1].size as nat
    }
}

pub proof fn lemma_sizes_prefix_mono(specs: Seq<FieldSpec>, a: int, b: int)
    requires
        a <= b,
    ensures
        sizes_prefix(specs, a) <= sizes_prefix(specs, b),
    decreases b - a,
{
    if a < b {
        lemma_sizes_prefix_mono(specs, a, b - 1);
    }
}

/// Well-formedness of a computed layout: fields are packed from offset
/// zero, each field starts where the previous one ends, every field lies
/// inside the type, and the type's size is the end of its last field.
pub open spec fn desc_wf(fields: Seq<FieldDescriptor>, total: nat) -> bool {
    &&& (forall|i: int|
        0 <= i < fields.len() ==> (#[trigger] fields[i]).offset + fields[i].size <= total)
    &&& (fields.len() == 0 ==> total == 0)
    &&& (fields.len() > 0 ==> fields[0].offset == 0 && fields[fields.len() - 1].offset + fields[
        fields.len() - 1
    ].size == total)
    &&& (forall|i: int|
        0 <= i < fields.len() - 1 ==> (#[trigger] fields[i + 1]).offset == fields[i].offset
            + fields[i].size)
}

/// Ordered field descriptors for one aggregate type, computed once and
/// never mutated afterwards.
pub struct TypeDescriptor {
    fields: Vec<FieldDescriptor>,
    total_size: usize,
}

impl TypeDescriptor {
    /// The ordered field descriptors.
    pub closed spec fn fields_seq(&self) -> Seq<FieldDescriptor> {
        self.fields@
    }

    /// The packed in-memory size of the whole aggregate.
    pub closed spec fn total(&self) -> nat {
        self.total_size as nat
    }

    /// The layout invariant every constructed descriptor carries.
    #[verifier::type_invariant]
    pub closed spec fn inv(&self) -> bool {
        desc_wf(self.fields@, self.total_size as nat)
    }

    /// What the invariant says, in terms a caller can see: the fence the
    /// fast path relies on.
    pub proof fn lemma_inv_wf(&self)
        requires
            self.inv(),
        ensures
            desc_wf(self.fields_seq(), self.total()),
    {
    }

    /// Registration point: compute the packed layout and each field's
    /// fast-path flag for backend `C`, once per type. Fails exactly when
    /// the packed size would not fit the address space.
    pub fn build<C: CheckPrimitiveTypeSize>(specs: &Vec<FieldSpec>) -> (r: Option<TypeDescriptor>)
        ensures
            r is Some <==> sizes_prefix(specs@, specs@.len() as int) <= usize::MAX,
            r matches Some(d) ==> {
                &&& d.fields_seq().len() == specs@.len()
                &&& desc_wf(d.fields_seq(), d.total())
                &&& d.total() == sizes_prefix(specs@, specs@.len() as int)
                &&& forall|i: int|
                    0 <= i < specs@.len() ==> {
                        let f = #[trigger] d.fields_seq()[i];
                        &&& f.name == specs@[i].name
                        &&& f.size == specs@[i].size
                        &&& f.offset == sizes_prefix(specs@, i)
                        &&& f.eligible == spec_field_eligible::<C>(specs@[i].kind)
                    }
            },
    {
        let byte_order = C::byte_order_agrees();
        let mut fields: Vec<FieldDescriptor> = Vec::new();
        let mut off: usize = 0;
        let mut i: usize = 0;
        let n = specs.len();
        while i < n
            invariant
                i <= n,
                n == specs@.len(),
                byte_order == C::spec_byte_order_agrees(),
                fields@.len() == i,
                off as nat == sizes_prefix(specs@, i as int),
                forall|j: int|
                    0 <= j < i ==> {
                        let f = #[trigger] fields@[j];
                        &&& f.name == specs@[j].name
                        &&& f.size == specs@[j].size
                        &&& f.offset == sizes_prefix(specs@, j)
                        &&& f.eligible == spec_field_eligible::<C>(specs@[j].kind)
                    },
            decreases n - i,
        {
            let fs = specs[i];
            let eligible = match fs.kind {
                FieldKind::Primitive(p) => C::is_sized(p) && byte_order,
                _ => false,
            };
            if fs.size > usize::MAX - off {
                proof {
                    lemma_sizes_prefix_mono(specs@, i as int + 1, n as int);
                }
                return None;
            }
            fields.push(FieldDescriptor { name: fs.name, offset: off, size: fs.size, eligible });
            off = off + fs.size;
            i = i + 1;
        }
        proof {
            assert forall|j: int|
                0 <= j < fields@.len() implies (#[trigger] fields@[j]).offset + fields@[j].size
                <= off as nat by {
                lemma_sizes_prefix_mono(specs@, j + 1, n as int);
            }
            assert(desc_wf(fields@, off as nat));
        }
        let d = TypeDescriptor { fields, total_size: off };
        Some(d)
    }

    /// How many fields the type has.
    pub fn field_count(&self) -> (r: usize)
        ensures
            r == self.fields_seq().len(),
    {
        self.fields.len()
    }

    /// The descriptor of field `i`.
    pub fn field_at(&self, i: usize) -> (r: FieldDescriptor)
        requires
            i < self.fields_seq().len(),
        ensures
            r == self.fields_seq()[i as int],
    {
        self.fields[i]
    }

    /// The packed in-memory size of the whole aggregate.
    pub fn byte_size(&self) -> (r: usize)
        ensures
            r == self.total(),
    {
        self.total_size
    }
}

/// The length, in fields, of the eligible run starting at `start`: how
/// many consecutive fields from there on may be bulk-copied.
pub open spec fn spec_run_len(fields: Seq<FieldDescriptor>, start: int) -> nat
    decreases fields.len() - start,
        when 0 <= start <= fields.len()
{
    if start < 0 || start >= fields.len() || !fields[start].eligible {
        0
    } else {
        1 + spec_run_len(fields, start + 1)
    }
}

/// Find the longest run of fast-path-eligible fields starting at `start`.
pub fn eligible_run_len(desc: &TypeDescriptor, start: usize) -> (r: usize)
    requires
        start <= desc.fields_seq().len(),
    ensures
        r == spec_run_len(desc.fields_seq(), start as int),
        start + r <= desc.fields_seq().len(),
{
    let n = desc.field_count();
    let mut i = start;
    while i < n && desc.field_at(i).eligible
        invariant
            start <= i <= n,
            n == desc.fields_seq().len(),
            forall|j: int| start <= j < i ==> (#[trigger] desc.fields_seq()[j]).eligible,
            spec_run_len(desc.fields_seq(), start as int) == (i - start) + spec_run_len(
                desc.fields_seq(),
                i as int,
            ),
        decreases n - i,
    {
        i = i + 1;
        proof {
            lemma_run_len_step(desc.fields_seq(), start as int, i as int);
        }
    }
    i - start
}

/// Peeling eligible fields off the front of a run.
proof fn lemma_run_len_step(fields: Seq<FieldDescriptor>, start: int, i: int)
    requires
        0 <= start <= i <= fields.len(),
        forall|j: int| start <= j < i ==> (#[trigger] fields[j]).eligible,
    ensures
        spec_run_len(fields, start) == (i - start) + spec_run_len(fields, i),
    decreases i - start,
{
    if start < i {
        lemma_run_len_step(fields, start + 1, i);
    }
}

} // verus!
