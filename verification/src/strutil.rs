//! Small string helpers shared by the serializer and the style code.

use vstd::prelude::*;
use vstd::string::StringSliceAdditionalSpecFns;

verus! {

/// Relies on String::push: appends the given character to the end of the
/// string.
#[verifier::external_body]
pub fn push_char(s: &mut String, c: char)
    ensures
        final(s)@ == old(s)@.push(c),
{
    s.push(c);
}

/// Character-for-character equality of two string slices, shown through the
/// UTF-8 encoding of their views.
pub fn str_eq(a: &str, b: &str) -> (r: bool)
    ensures
        r == (a@ == b@),
{
    let ab = a.as_bytes();
    let bb = b.as_bytes();
    proof {
        if a@ == b@ {
            assert(ab@ == bb@);
        }
    }
    if ab.len() != bb.len() {
        return false;
    }
    let mut i: usize = 0;
    while i < ab.len()
        invariant
            0 <= i <= ab.len(),
            ab.len() == bb.len(),
            ab@ == a.spec_bytes(),
            bb@ == b.spec_bytes(),
            forall|j: int| 0 <= j < i ==> ab@[j] == bb@[j],
        decreases ab.len() - i,
    {
        if ab[i] != bb[i] {
            proof {
                if a@ == b@ {
                    assert(ab@ == bb@);
                }
            }
            return false;
        }
        i += 1;
    }
    proof {
        assert(ab@ =~= bb@);
        vstd::utf8::encode_utf8_decode_utf8(a@);
        vstd::utf8::encode_utf8_decode_utf8(b@);
    }
    true
}

/// The texts of `fs` joined in order with `sep` between neighbours.
pub open spec fn join_seqs(fs: Seq<Seq<char>>, sep: Seq<char>) -> Seq<char>
    decreases fs.len(),
{
    if fs.len() == 0 {
        Seq::empty()
    } else if fs.len() == 1 {
        fs[0]
    } else {
        fs[0] + sep + join_seqs(fs.drop_first(), sep)
    }
}

/// Joining one more text appends a separator (when anything came before it)
/// and then the text.
pub proof fn lemma_join_seqs_push(fs: Seq<Seq<char>>, sep: Seq<char>, f: Seq<char>)
    ensures
        join_seqs(fs.push(f), sep) == if fs.len() == 0 {
            f
        } else {
            join_seqs(fs, sep) + sep + f
        },
    decreases fs.len(),
{
    if fs.len() == 0 {
        assert(fs.push(f) =~= seq![f]);
        assert(join_seqs(seq![f], sep) == f);
    } else if fs.len() == 1 {
        assert(fs.push(f)[0] == fs[0]);
        assert(fs.push(f).drop_first() =~= seq![f]);
        assert(join_seqs(seq![f], sep) == f);
        assert(join_seqs(fs.push(f), sep) == fs[0] + sep + f);
        assert(join_seqs(fs, sep) == fs[0]);
    } else {
        lemma_join_seqs_push(fs.drop_first(), sep, f);
        assert(fs.push(f).drop_first() =~= fs.drop_first().push(f));
        assert(join_seqs(fs.push(f), sep) == fs[0] + sep + (join_seqs(fs.drop_first(), sep) + sep
            + f));
        assert(fs[0] + sep + (join_seqs(fs.drop_first(), sep) + sep + f) =~= (fs[0] + sep
            + join_seqs(fs.drop_first(), sep)) + sep + f);
    }
}

} // verus!
