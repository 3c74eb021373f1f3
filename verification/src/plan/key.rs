//! Keys of the plan cache: a hash over a sequence of words.
use rustc_hash::FxHasher;
use std::hash::Hasher;
use vstd::prelude::*;

verus! {

/// The multiplier of the hash on this target.
pub open spec fn fx_multiplier() -> usize {
    if usize::BITS == 64 {
        0xf135_7aea_2e62_a9c5int as usize
    } else {
        0x93d7_65ddint as usize
    }
}

/// The hash state after one word: `(state + word) * multiplier`, wrapping.
pub open spec fn fx_add(state: usize, word: usize) -> usize {
    state.wrapping_add(word).wrapping_mul(fx_multiplier())
}

/// The finished hash: the state rotated left, by 26 of 64 bits or 15 of 32.
pub open spec fn fx_finish(state: usize) -> u64 {
    if usize::BITS == 64 {
        ((state * 0x400_0000) % 0x1_0000_0000_0000_0000 + state as int / 0x40_0000_0000) as u64
    } else {
        ((state * 0x8000) % 0x1_0000_0000 + state as int / 0x2_0000) as u64
    }
}

/// `rustc_hash::FxHasher`, started with `FxHasher::with_seed(seed)`, given one
/// word by `write_usize` and asked to `finish`. The contract says that the word
/// is added to the seed, the sum multiplied by the hasher's constant, wrapping,
/// and the product rotated left.
#[verifier::external_body]
fn fx_mix(seed: usize, word: usize) -> (r: u64)
    ensures
        r == fx_finish(fx_add(seed, word)),
{
    let mut hasher = FxHasher::with_seed(seed);
    hasher.write_usize(word);
    hasher.finish()
}

/// The hash of a sequence of words, each mixed into the hash of those before it.
pub open spec fn fx_words(words: Seq<usize>) -> u64
    decreases words.len(),
{
    if words.len() == 0 {
        0
    } else {
        fx_finish(fx_add(fx_words(words.drop_last()) as usize, words.last()))
    }
}

/// The hash of a sequence of words.
pub fn hash_words(words: &Vec<usize>) -> (r: u64)
    ensures
        r == fx_words(words@),
{
    let mut hash: u64 = 0;
    let mut i: usize = 0;
    while i < words.len()
        invariant
            i <= words.len(),
            hash == fx_words(words@.take(i as int)),
        decreases words.len() - i,
    {
        assert(words@.take(i + 1).drop_last() =~= words@.take(i as int));
        let seed = #[verifier::truncate] (hash as usize);
        hash = fx_mix(seed, words[i]);
        i += 1;
    }
    assert(words@.take(i as int) =~= words@);
    hash
}

/// A signed dimension as a word.
pub open spec fn i32_word(x: i32) -> usize {
    (x + 0x8000_0000) as usize
}

/// The words of a list of `i32`: the length, then the items.
pub open spec fn i32_words(s: Seq<i32>) -> Seq<usize> {
    seq![s.len() as usize] + s.map_values(|x: i32| i32_word(x))
}

/// The words of a list of `usize`: the length, then the items.
pub open spec fn usize_words(s: Seq<usize>) -> Seq<usize> {
    seq![s.len() as usize] + s
}

/// The words of a text: the length, then the characters.
pub open spec fn text_words(s: Seq<char>) -> Seq<usize> {
    seq![s.len() as usize] + s.map_values(|c: char| c as usize)
}

/// The word of a flag.
pub open spec fn flag_word(b: bool) -> usize {
    if b {
        1
    } else {
        0
    }
}

/// Appends the words of a list of `i32`.
pub fn push_i32_words(out: &mut Vec<usize>, items: &[i32])
    ensures
        final(out)@ == old(out)@ + i32_words(items@),
{
    let ghost f = |x: i32| i32_word(x);
    out.push(items.len());
    let ghost base = out@;
    let mut i: usize = 0;
    while i < items.len()
        invariant
            i <= items.len(),
            f == (|x: i32| i32_word(x)),
            out@ == base + items@.take(i as int).map_values(f),
        decreases items.len() - i,
    {
        let word = (items[i] as i64 + 0x8000_0000) as usize;
        out.push(word);
        assert(items@.take(i + 1).map_values(f) =~= items@.take(i as int).map_values(f).push(word));
        assert(out@ =~= base + items@.take(i + 1).map_values(f));
        i += 1;
    }
    assert(items@.take(i as int) =~= items@);
    assert(out@ =~= old(out)@ + i32_words(items@));
}

/// Appends the words of a list of `usize`.
pub fn push_usize_words(out: &mut Vec<usize>, items: &[usize])
    ensures
        final(out)@ == old(out)@ + usize_words(items@),
{
    out.push(items.len());
    let ghost base = out@;
    let mut i: usize = 0;
    while i < items.len()
        invariant
            i <= items.len(),
            out@ == base + items@.take(i as int),
        decreases items.len() - i,
    {
        out.push(items[i]);
        assert(out@ =~= base + items@.take(i + 1));
        i += 1;
    }
    assert(items@.take(i as int) =~= items@);
    assert(out@ =~= old(out)@ + usize_words(items@));
}

/// Appends the words of a text.
pub fn push_text_words(out: &mut Vec<usize>, text: &str)
    ensures
        final(out)@ == old(out)@ + text_words(text@),
{
    let ghost f = |c: char| c as usize;
    let n = text.unicode_len();
    out.push(n);
    let ghost base = out@;
    let mut i: usize = 0;
    while i < n
        invariant
            n == text@.len(),
            i <= n,
            f == (|c: char| c as usize),
            out@ == base + text@.take(i as int).map_values(f),
        decreases n - i,
    {
        let c = text.get_char(i);
        let word = c as u32 as usize;
        out.push(word);
        assert(text@.take(i + 1).map_values(f) =~= text@.take(i as int).map_values(f).push(word));
        assert(out@ =~= base + text@.take(i + 1).map_values(f));
        i += 1;
    }
    assert(text@.take(i as int) =~= text@);
    assert(out@ =~= old(out)@ + text_words(text@));
}

/// A hash takes the words one at a time: one more word is mixed into the hash of those
/// before it.
pub proof fn a_hash_grows_word_by_word(words: Seq<usize>, word: usize)
    ensures
        fx_words(Seq::empty()) == 0,
        fx_words(words.push(word)) == fx_finish(fx_add(fx_words(words) as usize, word)),
{
    assert(words.push(word).drop_last() =~= words);
}

/// Two lists of words with fronts of one length are equal only where the fronts and the
/// rests are.
pub proof fn lemma_same_front(a: Seq<usize>, b: Seq<usize>, x: Seq<usize>, y: Seq<usize>)
    requires
        a.len() == b.len(),
        a + x == b + y,
    ensures
        a == b,
        x == y,
{
    let n = a.len() as int;
    assert(a =~= (a + x).take(n));
    assert(b =~= (b + y).take(n));
    assert(x =~= (a + x).skip(n));
    assert(y =~= (b + y).skip(n));
}

/// Joining lists of words does not depend on the order in which they are joined.
pub proof fn lemma_joined_words(a: Seq<usize>, b: Seq<usize>, c: Seq<usize>)
    ensures
        (a + b) + c == a + (b + c),
{
    assert((a + b) + c =~= a + (b + c));
}

/// Lists of dimensions are told apart by their words, whatever follows them.
pub proof fn lists_of_dimensions_are_told_apart(a: Seq<i32>, b: Seq<i32>, x: Seq<usize>, y: Seq<usize>)
    requires
        a.len() <= usize::MAX,
        b.len() <= usize::MAX,
        i32_words(a) + x == i32_words(b) + y,
    ensures
        a == b,
        x == y,
{
    assert((i32_words(a) + x)[0] == a.len() as usize);
    assert((i32_words(b) + y)[0] == b.len() as usize);
    lemma_same_front(i32_words(a), i32_words(b), x, y);
    assert forall|i: int| 0 <= i < a.len() implies #[trigger] a[i] == b[i] by {
        assert(i32_words(a)[i + 1] == i32_word(a[i]));
        assert(i32_words(b)[i + 1] == i32_word(b[i]));
    }
    assert(a =~= b);
}

/// Lists of sizes are told apart by their words, whatever follows them.
pub proof fn lists_of_sizes_are_told_apart(a: Seq<usize>, b: Seq<usize>, x: Seq<usize>, y: Seq<usize>)
    requires
        a.len() <= usize::MAX,
        b.len() <= usize::MAX,
        usize_words(a) + x == usize_words(b) + y,
    ensures
        a == b,
        x == y,
{
    assert((usize_words(a) + x)[0] == a.len() as usize);
    assert((usize_words(b) + y)[0] == b.len() as usize);
    lemma_same_front(usize_words(a), usize_words(b), x, y);
    assert forall|i: int| 0 <= i < a.len() implies #[trigger] a[i] == b[i] by {
        assert(usize_words(a)[i + 1] == a[i]);
        assert(usize_words(b)[i + 1] == b[i]);
    }
    assert(a =~= b);
}

proof fn lemma_char_word(c: char)
    ensures
        c as usize == c as int,
{
}

/// Texts are told apart by their words, whatever follows them.
pub proof fn texts_are_told_apart(a: Seq<char>, b: Seq<char>, x: Seq<usize>, y: Seq<usize>)
    requires
        a.len() <= usize::MAX,
        b.len() <= usize::MAX,
        text_words(a) + x == text_words(b) + y,
    ensures
        a == b,
        x == y,
{
    assert((text_words(a) + x)[0] == a.len() as usize);
    assert((text_words(b) + y)[0] == b.len() as usize);
    lemma_same_front(text_words(a), text_words(b), x, y);
    assert forall|i: int| 0 <= i < a.len() implies #[trigger] a[i] == b[i] by {
        lemma_char_word(a[i]);
        lemma_char_word(b[i]);
        assert(text_words(a)[i + 1] == a[i] as usize);
        assert(text_words(b)[i + 1] == b[i] as usize);
    }
    assert(a =~= b);
}

/// The word of a flag tells it from its opposite, and a dimension's word its value.
pub proof fn flags_and_dimensions_are_told_apart(a: bool, b: bool, c: i32, d: i32)
    ensures
        flag_word(a) == flag_word(b) <==> a == b,
        i32_word(c) == i32_word(d) <==> c == d,
{
}

} // verus!
