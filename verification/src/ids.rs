//! Document identifiers.
//!
//! The de-duplication key of an uploaded document is its display name with
//! every trailing `".pdf"` suffix stripped. Derivation is deterministic and
//! keyed on the name alone, never on the file content.

use vstd::prelude::*;

verus! {

/// Whether `s` ends in `".pdf"`.
pub open spec fn has_pdf_suffix(s: Seq<char>) -> bool {
    s.len() >= 4 && s.subrange(s.len() - 4, s.len() as int) == ".pdf"@
}

/// `s` with every trailing `".pdf"` suffix removed.
pub open spec fn spec_stem(s: Seq<char>) -> Seq<char>
    decreases s.len(),
{
    if has_pdf_suffix(s) {
        spec_stem(s.subrange(0, s.len() - 4))
    } else {
        s
    }
}

/// Compares two string slices character by character.
pub fn str_eq(a: &str, b: &str) -> (r: bool)
    ensures
        r == (a@ == b@),
{
    let la = a.unicode_len();
    let lb = b.unicode_len();
    if la != lb {
        return false;
    }
    let mut i: usize = 0;
    while i < la
        invariant
            i <= la,
            la == a@.len(),
            la == b@.len(),
            forall|k: int| 0 <= k < i ==> a@[k] == b@[k],
        decreases la - i,
    {
        if a.get_char(i) != b.get_char(i) {
            return false;
        }
        i += 1;
    }
    proof {
        assert(a@ =~= b@);
    }
    true
}

/// Derives the document identifier from a display name by stripping every
/// trailing `".pdf"` suffix.
pub fn derive_identifier(name: &str) -> (r: String)
    ensures
        r@ == spec_stem(name@),
    decreases name@.len(),
{
    proof {
        reveal_strlit(".pdf");
    }
    let len = name.unicode_len();
    if len >= 4 {
        let dot = name.get_char(len - 4);
        let p = name.get_char(len - 3);
        let d = name.get_char(len - 2);
        let f = name.get_char(len - 1);
        if dot == '.' && p == 'p' && d == 'd' && f == 'f' {
            proof {
                assert(name@.subrange(len - 4, len as int) =~= ".pdf"@);
            }
            let head = name.substring_char(0, len - 4);
            return derive_identifier(head);
        }
        proof {
            if has_pdf_suffix(name@) {
                assert(name@.subrange(len - 4, len as int)[0] == '.');
                assert(name@.subrange(len - 4, len as int)[1] == 'p');
                assert(name@.subrange(len - 4, len as int)[2] == 'd');
                assert(name@.subrange(len - 4, len as int)[3] == 'f');
            }
        }
    }
    name.to_owned()
}

} // verus!
