//! Enum identification: matching whatever identifier a backend persisted
//! (a variant name or a declaration index) against a type's declared
//! variants. This is the one place decode-side enum lookup can fail, and
//! the source of the two decode-only failure kinds.

use vstd::prelude::*;
use vstd::slice::slice_index_get;
use vstd::string::StringSliceAdditionalSpecFns;
use vstd::utf8::encode_utf8;
use vstd::utf8::encode_utf8_decode_utf8;

use crate::error::DecodeErrorKind;
use crate::traits::EnumIdentifier;

verus! {

/// Text equality, decided on the UTF-8 bytes: `str::as_bytes` is
/// injective on character sequences (vstd's decode-of-encode law), so
/// byte equality is character equality.
fn str_eq(a: &str, b: &str) -> (r: bool)
    ensures
        r == (a@ == b@),
{
    let ab = a.as_bytes();
    let bb = b.as_bytes();
    proof {
        encode_utf8_decode_utf8(a@);
        encode_utf8_decode_utf8(b@);
    }
    if ab.len() != bb.len() {
        return false;
    }
    let n = ab.len();
    let mut i: usize = 0;
    while i < n
        invariant
            i <= n,
            n == ab@.len(),
            n == bb@.len(),
            ab@ == encode_utf8(a@),
            bb@ == encode_utf8(b@),
            vstd::utf8::decode_utf8(encode_utf8(a@)) == a@,
            vstd::utf8::decode_utf8(encode_utf8(b@)) == b@,
            forall|k: int| 0 <= k < i ==> ab@[k] == bb@[k],
        decreases n - i,
    {
        if *slice_index_get(ab, i) != *slice_index_get(bb, i) {
            return false;
        }
        i = i + 1;
    }
    proof {
        assert(ab@ =~= bb@);
    }
    true
}

/// Match a recovered identifier against the declared variant names, in
/// declaration order. An index is valid exactly when it is in range; a
/// name resolves to the first declared variant carrying it. The two
/// decode-only failure kinds come from here, each exactly when no
/// declared variant matches.
pub fn resolve_variant(names: &Vec<&'static str>, id: &EnumIdentifier) -> (r: Result<
    usize,
    DecodeErrorKind,
>)
    ensures
        r matches Ok(j) ==> j < names@.len() && match *id {
            EnumIdentifier::Index(i) => j == i,
            EnumIdentifier::Name(s) => names@[j as int]@ == s@ && (forall|k: int|
                0 <= k < j ==> (#[trigger] names@[k])@ != s@),
        },
        r matches Err(e) ==> match *id {
            EnumIdentifier::Index(i) => e == DecodeErrorKind::InvalidEnumVariantIndex && i
                >= names@.len(),
            EnumIdentifier::Name(s) => e == DecodeErrorKind::InvalidEnumVariantName && (forall|
                k: int,
            |
                0 <= k < names@.len() ==> (#[trigger] names@[k])@ != s@),
        },
{
    match *id {
        EnumIdentifier::Index(i) => {
            if i < names.len() {
                Ok(i)
            } else {
                Err(DecodeErrorKind::InvalidEnumVariantIndex)
            }
        },
        EnumIdentifier::Name(s) => {
            let n = names.len();
            let mut j: usize = 0;
            while j < n
                invariant
                    *id == EnumIdentifier::Name(s),
                    j <= n,
                    n == names@.len(),
                    forall|k: int| 0 <= k < j ==> (#[trigger] names@[k])@ != s@,
                decreases n - j,
            {
                let nm = names[j];
                if str_eq(nm, s) {
                    proof {
                        assert(names@[j as int]@ == s@);
                    }
                    return Ok(j);
                }
                j = j + 1;
            }
            Err(DecodeErrorKind::InvalidEnumVariantName)
        },
    }
}

} // verus!
