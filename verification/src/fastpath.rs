//! Fast-path field decoder: during decode of an aggregate, the longest
//! prefix of not-yet-decoded fields whose descriptors are all eligible (a
//! run) is copied with a single raw read into the destination memory at
//! the run's starting offset, instead of one dispatch per field.
//!
//! The destination memory is a byte vector of the aggregate's packed
//! size. The entry points are fenced: their preconditions demand a
//! well-formed descriptor and a destination of exactly the type's size,
//! so a violated layout is a verification-time error, never memory
//! corruption. [`lemma_run_copy_equivalence`] is the law that makes the
//! optimization safe to enable: the bulk copy leaves the destination
//! bit-identical to copying the same bytes one field at a time.

use vstd::prelude::*;

use crate::descriptor::FieldDescriptor;
use crate::descriptor::TypeDescriptor;
use crate::descriptor::desc_wf;
use crate::descriptor::eligible_run_len;
use crate::descriptor::spec_run_len;
use crate::error::DecodeErrorKind;
use crate::traits::BinaryDecoder;

verus! {

/// Writing `data` over `dest` at `off`, as one block.
pub open spec fn block_write(dest: Seq<u8>, off: int, data: Seq<u8>) -> Seq<u8> {
    dest.take(off) + data + dest.skip(off + data.len())
}

/// Writing the run's bytes one field at a time: each field's slice of the
/// input lands at that field's offset.
pub open spec fn fieldwise_write(
    dest: Seq<u8>,
    fields: Seq<FieldDescriptor>,
    start: int,
    k: nat,
    input: Seq<u8>,
) -> Seq<u8>
    decreases k,
{
    if k == 0 {
        dest
    } else {
        fieldwise_write(
            block_write(dest, fields[start].offset as int, input.take(fields[start].size as int)),
            fields,
            start + 1,
            (k - 1) as nat,
            input.skip(fields[start].size as int),
        )
    }
}

/// The total byte size of `k` fields starting at `start`.
pub open spec fn run_bytes(fields: Seq<FieldDescriptor>, start: int, k: nat) -> nat
    decreases k,
{
    if k == 0 {
        0
    } else {
        fields[start].size as nat + run_bytes(fields, start + 1, (k - 1) as nat)
    }
}

/// A block write inside bounds keeps the destination's length.
pub proof fn lemma_block_write_len(dest: Seq<u8>, off: int, data: Seq<u8>)
    requires
        0 <= off,
        off + data.len() <= dest.len(),
    ensures
        block_write(dest, off, data).len() == dest.len(),
{
}

/// Two adjacent block writes are one block write.
pub proof fn lemma_block_merge(dest: Seq<u8>, off: int, t: Seq<u8>, u: Seq<u8>)
    requires
        0 <= off,
        off + t.len() + u.len() <= dest.len(),
    ensures
        block_write(block_write(dest, off, t), off + t.len(), u) == block_write(dest, off, t + u),
{
    let d1 = block_write(dest, off, t);
    assert(block_write(d1, off + t.len(), u) =~= block_write(dest, off, t + u));
}

/// The fast path is sound: copying a contiguous run's bytes in one block
/// leaves the destination exactly as copying the same bytes one field at
/// a time would. This is what lets the bulk copy replace per-field
/// dispatch.
pub proof fn lemma_run_copy_equivalence(
    dest: Seq<u8>,
    fields: Seq<FieldDescriptor>,
    start: int,
    k: nat,
    input: Seq<u8>,
)
    requires
        0 <= start,
        start + k <= fields.len(),
        forall|i: int|
            start <= i < start + k - 1 ==> (#[trigger] fields[i + 1]).offset == fields[i].offset
                + fields[i].size,
        input.len() == run_bytes(fields, start, k),
        k > 0 ==> fields[start].offset + input.len() <= dest.len(),
    ensures
        fieldwise_write(dest, fields, start, k, input) == if k == 0 {
            dest
        } else {
            block_write(dest, fields[start].offset as int, input)
        },
    decreases k,
{
    if k > 0 {
        let off = fields[start].offset as int;
        let s0 = fields[start].size as int;
        let head = input.take(s0);
        let tail = input.skip(s0);
        let d1 = block_write(dest, off, head);
        lemma_block_write_len(dest, off, head);
        if k == 1 {
            assert(head =~= input);
            assert(fieldwise_write(d1, fields, start + 1, 0, tail) == d1);
        } else {
            assert(fields[start + 1].offset == off + s0);
            lemma_run_copy_equivalence(d1, fields, start + 1, (k - 1) as nat, tail);
            lemma_block_merge(dest, off, head, tail);
            assert(head + tail =~= input);
        }
    }
}

/// Copy `src[from .. from + len]` over `dest` at `off`.
fn copy_at(dest: &mut Vec<u8>, off: usize, src: &Vec<u8>, from: usize, len: usize)
    requires
        off + len <= old(dest)@.len(),
        from + len <= src@.len(),
    ensures
        final(dest)@ == block_write(old(dest)@, off as int, src@.subrange(
            from as int,
            from as int + len as int,
        )),
{
    let ghost dest0 = dest@;
    let dlen = dest.len();
    let slen = src.len();
    let mut i: usize = 0;
    proof {
        assert(dest@ =~= block_write(dest0, off as int, src@.subrange(from as int, from as int)));
    }
    while i < len
        invariant
            i <= len,
            off + len <= dlen,
            from + len <= slen,
            dest0.len() == dlen,
            src@.len() == slen,
            dest@.len() == dest0.len(),
            dest@ == block_write(dest0, off as int, src@.subrange(
                from as int,
                from as int + i as int,
            )),
        decreases len - i,
    {
        let b = src[from + i];
        dest[off + i] = b;
        i = i + 1;
        proof {
            assert(dest@ =~= block_write(dest0, off as int, src@.subrange(
                from as int,
                from as int + i as int,
            )));
        }
    }
}

/// The fenced fast-path entry point: identify the eligible run starting
/// at field `start`, read its total byte size in one raw read, and copy
/// it into the destination at the run's starting offset. Returns how many
/// fields the run covered; zero means the next field must go through the
/// ordinary per-field path.
///
/// On a short read nothing is consumed and the destination is untouched:
/// no partially constructed value is observable.
pub fn decode_run_fast<D: BinaryDecoder>(
    d: &mut D,
    desc: &TypeDescriptor,
    start: usize,
    dest: &mut Vec<u8>,
) -> (r: Result<usize, DecodeErrorKind>)
    requires
        start <= desc.fields_seq().len(),
        old(dest)@.len() == desc.total(),
    ensures
        r matches Ok(k) ==> {
            let nb = run_bytes(desc.fields_seq(), start as int, k as nat);
            &&& k == spec_run_len(desc.fields_seq(), start as int)
            &&& nb <= old(d).remaining().len()
            &&& final(d).remaining() == old(d).remaining().skip(nb as int)
            &&& final(dest)@ == if k == 0 {
                old(dest)@
            } else {
                block_write(
                    old(dest)@,
                    desc.fields_seq()[start as int].offset as int,
                    old(d).remaining().take(nb as int),
                )
            }
        },
        r matches Err(e) ==> e == DecodeErrorKind::NotEnoughBytes && run_bytes(
            desc.fields_seq(),
            start as int,
            spec_run_len(desc.fields_seq(), start as int),
        ) > old(d).remaining().len() && final(dest)@ == old(dest)@ && final(d).remaining() == old(
            d,
        ).remaining(),
{
    proof {
        use_type_invariant(&*desc);
        desc.lemma_inv_wf();
    }
    let n = desc.field_count();
    let k = eligible_run_len(desc, start);
    if k == 0 {
        proof {
            assert(old(d).remaining().skip(0) =~= old(d).remaining());
        }
        return Ok(0);
    }
    let first = desc.field_at(start);
    let last = desc.field_at(start + k - 1);
    let ts = desc.byte_size();
    proof {
        lemma_run_bytes_span(desc.fields_seq(), start as int, k as nat, desc.total());
        assert(last.offset + last.size <= ts);
    }
    let nb = last.offset + last.size - first.offset;
    match d.read_bytes(nb) {
        Ok(b) => {
            copy_at(dest, first.offset, &b, 0, nb);
            proof {
                assert(b@.subrange(0, nb as int) =~= b@);
            }
            Ok(k)
        },
        Err(()) => Err(DecodeErrorKind::NotEnoughBytes),
    }
}

/// In a well-formed packed layout, a run's byte size is the span from its
/// first field's offset to its last field's end, and the run lies inside
/// the type.
proof fn lemma_run_bytes_span(fields: Seq<FieldDescriptor>, start: int, k: nat, total: nat)
    requires
        desc_wf(fields, total),
        0 <= start,
        k > 0,
        start + k <= fields.len(),
    ensures
        run_bytes(fields, start, k) == fields[start + k - 1].offset + fields[start + k - 1].size
            - fields[start].offset,
        fields[start].offset + run_bytes(fields, start, k) <= total,
    decreases k,
{
    assert(run_bytes(fields, start + 1, 0) == 0);
    if k > 1 {
        lemma_run_bytes_span(fields, start + 1, (k - 1) as nat, total);
        assert(fields[start + 1].offset == fields[start].offset + fields[start].size);
    }
    assert(fields[start + k - 1].offset + fields[start + k - 1].size <= total);
}

/// A run's byte size grows by the last field's size.
proof fn lemma_run_bytes_snoc(fields: Seq<FieldDescriptor>, start: int, j: nat)
    requires
        0 <= start,
        start + j + 1 <= fields.len(),
    ensures
        run_bytes(fields, start, j + 1) == run_bytes(fields, start, j) + fields[start + j].size,
    decreases j,
{
    assert(run_bytes(fields, start + 1, 0) == 0);
    if j > 0 {
        lemma_run_bytes_snoc(fields, start + 1, (j - 1) as nat);
    }
}

/// The ordinary-path reference: read the same run's bytes and place them
/// one field at a time. The fast path must agree with this bit for bit
/// ([`lemma_run_copy_equivalence`]), and the agreement is visible in the
/// two functions' contracts.
pub fn decode_run_fieldwise<D: BinaryDecoder>(
    d: &mut D,
    desc: &TypeDescriptor,
    start: usize,
    dest: &mut Vec<u8>,
) -> (r: Result<usize, DecodeErrorKind>)
    requires
        start <= desc.fields_seq().len(),
        old(dest)@.len() == desc.total(),
    ensures
        r matches Ok(k) ==> {
            let nb = run_bytes(desc.fields_seq(), start as int, k as nat);
            &&& k == spec_run_len(desc.fields_seq(), start as int)
            &&& nb <= old(d).remaining().len()
            &&& final(d).remaining() == old(d).remaining().skip(nb as int)
            &&& final(dest)@ == fieldwise_write(
                old(dest)@,
                desc.fields_seq(),
                start as int,
                k as nat,
                old(d).remaining().take(nb as int),
            )
        },
        r matches Err(e) ==> e == DecodeErrorKind::NotEnoughBytes && run_bytes(
            desc.fields_seq(),
            start as int,
            spec_run_len(desc.fields_seq(), start as int),
        ) > old(d).remaining().len() && final(dest)@ == old(dest)@ && final(d).remaining() == old(
            d,
        ).remaining(),
{
    proof {
        use_type_invariant(&*desc);
        desc.lemma_inv_wf();
    }
    let ghost rem0 = old(d).remaining();
    let ghost fs = desc.fields_seq();
    let n = desc.field_count();
    let k = eligible_run_len(desc, start);
    if k == 0 {
        proof {
            assert(old(d).remaining().skip(0) =~= old(d).remaining());
        }
        return Ok(0);
    }
    let first = desc.field_at(start);
    let last = desc.field_at(start + k - 1);
    let ts = desc.byte_size();
    proof {
        lemma_run_bytes_span(fs, start as int, k as nat, desc.total());
        assert(last.offset + last.size <= ts);
    }
    let nb = last.offset + last.size - first.offset;
    let b = match d.read_bytes(nb) {
        Ok(b) => b,
        Err(()) => {
            return Err(DecodeErrorKind::NotEnoughBytes);
        },
    };
    let ghost dest0 = dest@;
    let off0 = first.offset;
    let mut j: usize = 0;
    let mut boff: usize = 0;
    proof {
        assert(dest@ =~= block_write(dest0, off0 as int, b@.take(0)));
    }
    while j < k
        invariant
            j <= k,
            0 < k,
            fs == desc.fields_seq(),
            desc_wf(fs, desc.total()),
            start + k <= fs.len(),
            n == fs.len(),
            k == spec_run_len(fs, start as int),
            off0 == fs[start as int].offset,
            b@.len() == run_bytes(fs, start as int, k as nat),
            nb as nat == run_bytes(fs, start as int, k as nat),
            off0 + b@.len() <= desc.total(),
            dest@.len() == dest0.len(),
            dest0.len() == desc.total(),
            boff as nat == run_bytes(fs, start as int, j as nat),
            boff <= b@.len(),
            dest@ == block_write(dest0, off0 as int, b@.take(boff as int)),
        decreases k - j,
    {
        proof {
            lemma_run_bytes_snoc(fs, start as int, j as nat);
            if j > 0 {
                lemma_run_bytes_span(fs, start as int, j as nat, desc.total());
                lemma_run_bytes_span(fs, start as int, (j + 1) as nat, desc.total());
            }
            lemma_run_bytes_mono(fs, start as int, (j + 1) as nat, k as nat);
        }
        let f = desc.field_at(start + j);
        proof {
            assert(off0 + boff == f.offset);
        }
        let ghost before = dest@;
        copy_at(dest, off0 + boff, &b, boff, f.size);
        proof {
            lemma_block_merge(dest0, off0 as int, b@.take(boff as int), b@.subrange(
                boff as int,
                boff as int + f.size as int,
            ));
            assert(b@.take(boff as int) + b@.subrange(boff as int, boff as int + f.size as int)
                =~= b@.take(boff as int + f.size as int));
        }
        boff = boff + f.size;
        j = j + 1;
    }
    proof {
        assert(b@.take(boff as int) =~= b@);
        assert(b@ == rem0.take(nb as int));
        lemma_run_copy_equivalence(dest0, fs, start as int, k as nat, b@);
    }
    Ok(k)
}

/// A longer run takes no fewer bytes.
proof fn lemma_run_bytes_mono(fields: Seq<FieldDescriptor>, start: int, a: nat, b: nat)
    requires
        a <= b,
        0 <= start,
        start + b <= fields.len(),
    ensures
        run_bytes(fields, start, a) <= run_bytes(fields, start, b),
    decreases b,
{
    if 0 < a {
        lemma_run_bytes_mono(fields, start + 1, (a - 1) as nat, (b - 1) as nat);
    } else if 0 < b {
        lemma_run_bytes_mono(fields, start + 1, 0, (b - 1) as nat);
    }
}

} // verus!
