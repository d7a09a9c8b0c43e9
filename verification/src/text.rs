//! Splitting text at a separator character.

use vstd::prelude::*;
use vstd::slice::slice_subrange;
use vstd::std_specs::iter::IteratorSpec;

verus! {

/// The index of the first `sep` in `s`, or `s.len()` where `s` holds none.
pub open spec fn first_index(s: Seq<char>, sep: char) -> nat
    decreases s.len(),
{
    if s.len() == 0 || s[0] == sep {
        0
    } else {
        1 + first_index(s.drop_first(), sep)
    }
}

/// What follows the first `sep` in `s`; empty where `s` holds none.
pub open spec fn after_first(s: Seq<char>, sep: char) -> Seq<char> {
    if first_index(s, sep) < s.len() {
        s.subrange(first_index(s, sep) as int + 1, s.len() as int)
    } else {
        Seq::empty()
    }
}

/// The pieces of `s` between the occurrences of `sep`, in order. A text with
/// `n` separators has `n + 1` pieces, some of which may be empty.
pub open spec fn split(s: Seq<char>, sep: char) -> Seq<Seq<char>>
    decreases s.len(),
{
    let i = first_index(s, sep) as int;
    if i >= s.len() {
        seq![s]
    } else {
        seq![s.subrange(0, i)] + split(s.subrange(i + 1, s.len() as int), sep)
    }
}

/// `first_index` stays within the text, no separator stands before it, and
/// one stands at it unless it is the end.
pub proof fn lemma_first_index_is_first(s: Seq<char>, sep: char)
    ensures
        first_index(s, sep) <= s.len(),
        forall|k: int| 0 <= k < first_index(s, sep) ==> s[k] != sep,
        first_index(s, sep) < s.len() ==> s[first_index(s, sep) as int] == sep,
    decreases s.len(),
{
    if s.len() == 0 || s[0] == sep {
    } else {
        let t = s.drop_first();
        lemma_first_index_is_first(t, sep);
        assert forall|k: int| 0 <= k < first_index(s, sep) implies s[k] != sep by {
            if k > 0 {
                assert(s[k] == t[k - 1]);
            }
        }
    }
}

/// A position that is a separator or the end, with no separator before it,
/// is `first_index`.
pub proof fn lemma_first_index_unique(s: Seq<char>, sep: char, i: int)
    requires
        0 <= i <= s.len(),
        forall|k: int| 0 <= k < i ==> s[k] != sep,
        i < s.len() ==> s[i] == sep,
    ensures
        first_index(s, sep) == i,
    decreases s.len(),
{
    if s.len() == 0 || s[0] == sep {
    } else {
        let t = s.drop_first();
        assert forall|k: int| 0 <= k < i - 1 implies t[k] != sep by {
            assert(t[k] == s[k + 1]);
        }
        lemma_first_index_unique(t, sep, i - 1);
    }
}

/// How `split` is built: its first piece ends at the first separator, and
/// the other pieces are those of the text after that separator.
pub proof fn lemma_split_pieces(s: Seq<char>, sep: char)
    ensures
        split(s, sep).len() >= 1,
        split(s, sep)[0] == s.subrange(0, first_index(s, sep) as int),
        first_index(s, sep) >= s.len() ==> split(s, sep).len() == 1,
        first_index(s, sep) < s.len() ==> split(s, sep).len() == 1 + split(
            after_first(s, sep),
            sep,
        ).len(),
        forall|k: int|
            1 <= k < split(s, sep).len() ==> #[trigger] split(s, sep)[k] == split(
                after_first(s, sep),
                sep,
            )[k - 1],
    decreases s.len(),
{
    lemma_first_index_is_first(s, sep);
    let i = first_index(s, sep) as int;
    if i >= s.len() {
        assert(s.subrange(0, i) =~= s);
    } else {
        lemma_split_pieces(after_first(s, sep), sep);
    }
}

/// The pieces put together again, with one `sep` between each two.
pub open spec fn join(pieces: Seq<Seq<char>>, sep: char) -> Seq<char>
    decreases pieces.len(),
{
    if pieces.len() == 0 {
        Seq::empty()
    } else if pieces.len() == 1 {
        pieces[0]
    } else {
        pieces[0] + seq![sep] + join(pieces.drop_first(), sep)
    }
}

/// Splitting loses nothing and leaves no separator behind: no piece holds
/// `sep`, and the pieces joined with `sep` are the text.
pub proof fn lemma_split_rejoins(s: Seq<char>, sep: char)
    ensures
        forall|k: int|
            0 <= k < split(s, sep).len() ==> !(#[trigger] split(s, sep)[k]).contains(sep),
        join(split(s, sep), sep) == s,
    decreases s.len(),
{
    lemma_first_index_is_first(s, sep);
    lemma_split_pieces(s, sep);
    let i = first_index(s, sep) as int;
    let pieces = split(s, sep);
    if i >= s.len() {
        assert(pieces[0] =~= s);
    } else {
        let rest = after_first(s, sep);
        lemma_split_rejoins(rest, sep);
        assert(pieces.drop_first() =~= split(rest, sep));
        assert(join(pieces, sep) =~= s);
        assert forall|k: int| 0 <= k < pieces.len() implies !(#[trigger] pieces[k]).contains(
            sep,
        ) by {
            if k > 0 {
                assert(pieces[k] == split(rest, sep)[k - 1]);
            }
        }
    }
}

/// Splitting undoes joining: pieces of which none holds `sep`, joined with
/// `sep` and split again, are the same pieces. With the law before, this
/// makes `split` the one way to cut a text at every `sep`.
pub proof fn lemma_split_of_join(pieces: Seq<Seq<char>>, sep: char)
    requires
        pieces.len() >= 1,
        forall|k: int| 0 <= k < pieces.len() ==> !(#[trigger] pieces[k]).contains(sep),
    ensures
        split(join(pieces, sep), sep) == pieces,
    decreases pieces.len(),
{
    let s = join(pieces, sep);
    let head = pieces[0];
    assert forall|k: int| 0 <= k < head.len() implies head[k] != sep by {
        assert(head.contains(head[k]));
    }
    if pieces.len() == 1 {
        lemma_first_index_unique(s, sep, s.len() as int);
        assert(split(s, sep) =~= pieces);
    } else {
        let others = pieces.drop_first();
        assert forall|k: int| 0 <= k < others.len() implies !(#[trigger] others[k]).contains(
            sep,
        ) by {
            assert(others[k] == pieces[k + 1]);
        }
        lemma_split_of_join(others, sep);
        lemma_first_index_unique(s, sep, head.len() as int);
        assert(s.subrange(0, head.len() as int) =~= head);
        assert(s.subrange(head.len() as int + 1, s.len() as int) =~= join(others, sep));
        assert(split(s, sep) =~= pieces);
    }
}

/// The characters of a text, in a vector.
pub fn collect_chars(s: &str) -> (v: Vec<char>)
    ensures
        v@ == s@,
{
    let mut v: Vec<char> = Vec::new();
    let mut it = s.chars();
    proof {
        vstd::string::axiom_spec_iter(s);
    }
    loop
        invariant
            it.obeys_prophetic_iter_laws(),
            it.decrease() is Some,
            v@ + it.remaining() == s@,
        decreases it.decrease()->0,
    {
        let ghost before = it;
        let next = it.next();
        proof {
            vstd::string::next_postcondition(&before, &it, next);
        }
        match next {
            Some(c) => {
                v.push(c);
                assert(v@ + it.remaining() =~= s@);
            },
            None => {
                assert(v@ =~= s@);
                return v;
            },
        }
    }
}

/// Finds the first `sep` among `chars`; the length of `chars` where there is
/// none.
pub fn find(chars: &[char], sep: char) -> (r: usize)
    ensures
        r == first_index(chars@, sep),
        r <= chars.len(),
{
    let mut i: usize = 0;
    while i < chars.len() && chars[i] != sep
        invariant
            i <= chars.len(),
            forall|k: int| 0 <= k < i ==> chars@[k] != sep,
        decreases chars.len() - i,
    {
        i += 1;
    }
    proof {
        lemma_first_index_unique(chars@, sep, i as int);
    }
    i
}

/// Finds the first `sep` at or after `from`, as an index into `chars`; the
/// length of `chars` where there is none, or where `from` lies beyond it.
pub fn find_from(chars: &Vec<char>, from: usize, sep: char) -> (r: usize)
    ensures
        from <= chars.len() ==> r == from + first_index(
            chars@.subrange(from as int, chars.len() as int),
            sep,
        ),
        from > chars.len() ==> r == chars.len(),
        r <= chars.len(),
{
    let n = chars.len();
    if from > n {
        return n;
    }
    let tail = slice_subrange(chars.as_slice(), from, n);
    let at = find(tail, sep);
    from + at
}

} // verus!
