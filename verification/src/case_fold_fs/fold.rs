//! Case folding of file names: what makes lookups ignore case.

use vstd::prelude::*;

use crate::text::{char_upper, to_upper_chars};
use vstd::utf8::{encode_scalar, encode_utf8};

verus! {

/// What `<[u8]>::utf8_chunks` yields for some bytes: each chunk's valid characters and the
/// invalid bytes after them.
pub uninterp spec fn utf8_chunks_of(bytes: Seq<u8>) -> Seq<(Seq<char>, Seq<u8>)>;

/// The views of chunks.
pub open spec fn chunk_views(cs: Seq<(Vec<char>, Vec<u8>)>) -> Seq<(Seq<char>, Seq<u8>)> {
    cs.map_values(|c: (Vec<char>, Vec<u8>)| (c.0@, c.1@))
}

/// Trusted: calls `<[u8]>::utf8_chunks` and collects each chunk's valid characters and
/// invalid bytes, in order.
#[verifier::external_body]
fn utf8_chunks(bytes: &[u8]) -> (r: Vec<(Vec<char>, Vec<u8>)>)
    ensures
        chunk_views(r@) == utf8_chunks_of(bytes@),
{
    bytes.utf8_chunks().map(|c| (c.valid().chars().collect(), c.invalid().to_vec())).collect()
}

/// The characters of a text, each replaced by its uppercase form.
pub open spec fn upper_all(cs: Seq<char>) -> Seq<char>
    decreases cs.len(),
{
    if cs.len() == 0 {
        Seq::empty()
    } else {
        upper_all(cs.drop_last()) + char_upper(cs.last())
    }
}

/// The folded bytes of chunks: valid characters uppercased and encoded, invalid bytes kept.
pub open spec fn fold_chunks(cs: Seq<(Seq<char>, Seq<u8>)>) -> Seq<u8>
    decreases cs.len(),
{
    if cs.len() == 0 {
        Seq::empty()
    } else {
        fold_chunks(cs.drop_last()) + encode_utf8(upper_all(cs.last().0)) + cs.last().1
    }
}

/// The case folded form of a name.
pub open spec fn case_fold_spec(bytes: Seq<u8>) -> Seq<u8> {
    fold_chunks(utf8_chunks_of(bytes))
}

/// Encoding two texts one after the other encodes them together.
proof fn lemma_encode_append(a: Seq<char>, b: Seq<char>)
    ensures
        encode_utf8(a + b) == encode_utf8(a) + encode_utf8(b),
    decreases a.len(),
{
    if a.len() == 0 {
        assert(a + b =~= b);
    } else {
        assert((a + b).drop_first() =~= a.drop_first() + b);
        lemma_encode_append(a.drop_first(), b);
    }
}

/// Append the UTF-8 encoding of a character.
fn push_utf8(out: &mut Vec<u8>, c: char)
    ensures
        final(out)@ == old(out)@ + encode_scalar(c as u32),
{
    let n = c as u32;
    if n <= 0x7F {
        out.push((n & 0x7F) as u8);
    } else if n <= 0x7FF {
        out.push(0xC0 | ((n >> 6) & 0x1F) as u8);
        out.push(0x80 | (n & 0x3F) as u8);
    } else if n <= 0xFFFF {
        out.push(0xE0 | ((n >> 12) & 0x0F) as u8);
        out.push(0x80 | ((n >> 6) & 0x3F) as u8);
        out.push(0x80 | (n & 0x3F) as u8);
    } else {
        out.push(0xF0 | ((n >> 18) & 0x7) as u8);
        out.push(0x80 | ((n >> 12) & 0x3F) as u8);
        out.push(0x80 | ((n >> 6) & 0x3F) as u8);
        out.push(0x80 | (n & 0x3F) as u8);
    }
    assert(out@ =~= old(out)@ + encode_scalar(c as u32));
}

/// Append the UTF-8 encoding of characters.
fn push_utf8_all(out: &mut Vec<u8>, cs: &[char])
    ensures
        final(out)@ == old(out)@ + encode_utf8(cs@),
{
    let ghost start = out@;
    let mut i: usize = 0;
    assert(start + encode_utf8(cs@.take(0)) =~= start);
    while i < cs.len()
        invariant
            i <= cs@.len(),
            start == old(out)@,
            out@ == start + encode_utf8(cs@.take(i as int)),
        decreases cs@.len() - i,
    {
        let ghost before = out@;
        push_utf8(out, cs[i]);
        proof {
            assert(cs@.take(i + 1) =~= cs@.take(i as int) + seq![cs@[i as int]]);
            lemma_encode_append(cs@.take(i as int), seq![cs@[i as int]]);
            let one = seq![cs@[i as int]];
            assert(one.drop_first() =~= Seq::<char>::empty());
            assert(encode_utf8(one) =~= encode_scalar(cs@[i as int] as u32) + encode_utf8(Seq::<char>::empty()));
            assert(encode_utf8(one) =~= encode_scalar(cs@[i as int] as u32));
            assert(out@ =~= start + encode_utf8(cs@.take(i + 1)));
        }
        i = i + 1;
    }
    assert(cs@.take(cs@.len() as int) =~= cs@);
}

/// Case fold a name: valid characters are uppercased, invalid bytes kept as they are.
pub fn case_fold(bytes: &[u8]) -> (r: Vec<u8>)
    ensures
        r@ == case_fold_spec(bytes@),
{
    let chunks = utf8_chunks(bytes);
    let ghost cv = chunk_views(chunks@);
    let mut folded: Vec<u8> = Vec::new();
    let mut k: usize = 0;
    assert(cv.take(0) =~= Seq::<(Seq<char>, Seq<u8>)>::empty());
    while k < chunks.len()
        invariant
            k <= chunks@.len(),
            cv == chunk_views(chunks@),
            folded@ == fold_chunks(cv.take(k as int)),
        decreases chunks@.len() - k,
    {
        let valid = &chunks[k].0;
        let ghost before = folded@;
        let mut upper: Vec<char> = Vec::new();
        let mut i: usize = 0;
        while i < valid.len()
            invariant
                i <= valid@.len(),
                upper@ == upper_all(valid@.take(i as int)),
            decreases valid@.len() - i,
        {
            let u = to_upper_chars(valid[i]);
            crate::text::push_all(&mut upper, u.as_slice());
            assert(valid@.take(i + 1).drop_last() =~= valid@.take(i as int));
            i = i + 1;
        }
        assert(valid@.take(valid@.len() as int) =~= valid@);
        push_utf8_all(&mut folded, upper.as_slice());
        let invalid = &chunks[k].1;
        let mut j: usize = 0;
        let ghost mid = folded@;
        while j < invalid.len()
            invariant
                j <= invalid@.len(),
                folded@ == mid + invalid@.take(j as int),
            decreases invalid@.len() - j,
        {
            folded.push(invalid[j]);
            assert(invalid@.take(j + 1) =~= invalid@.take(j as int).push(invalid@[j as int]));
            j = j + 1;
        }
        proof {
            assert(invalid@.take(invalid@.len() as int) =~= invalid@);
            let t = cv.take(k + 1);
            assert(t.drop_last() =~= cv.take(k as int));
            assert(t.last() == (valid@, invalid@));
            assert(folded@ =~= fold_chunks(t));
        }
        k = k + 1;
    }
    assert(cv.take(cv.len() as int) =~= cv);
    folded
}

} // verus!
