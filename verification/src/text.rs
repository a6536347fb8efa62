//! Splitting and rewriting of text, as far as file names need it.

use vstd::prelude::*;
use vstd::string::{StrSliceExecFns, StringExecFns};

verus! {

/// `pattern` stands in `s` at position `i`.
pub open spec fn matches_at(s: Seq<char>, pattern: Seq<char>, i: int) -> bool {
    &&& 0 <= i
    &&& i + pattern.len() <= s.len()
    &&& s.subrange(i, i + pattern.len()) == pattern
}

/// The pieces of `s` from `start` on, where the search for the next stand of
/// the non-empty `pattern` has come as far as `i`.
pub open spec fn split_from(s: Seq<char>, pattern: Seq<char>, start: int, i: int) -> Seq<Seq<char>>
    decreases s.len() - i,
{
    if pattern.len() == 0 || i < start || start < 0 || i + pattern.len() > s.len() {
        seq![s.subrange(start, s.len() as int)]
    } else if matches_at(s, pattern, i) {
        seq![s.subrange(start, i)] + split_from(
            s,
            pattern,
            i + pattern.len(),
            i + pattern.len(),
        )
    } else {
        split_from(s, pattern, start, i + 1)
    }
}

/// The pieces into which the empty pattern splits `s`: an empty piece, every
/// character by itself, and an empty piece.
pub open spec fn split_chars(s: Seq<char>) -> Seq<Seq<char>> {
    seq![Seq::<char>::empty()] + Seq::new(s.len(), |i: int| seq![s[i]]) + seq![Seq::<char>::empty()]
}

/// The pieces of `s` between the stands of `pattern`, found from the left and
/// not overlapping. A text without the pattern is one piece.
pub open spec fn split(s: Seq<char>, pattern: Seq<char>) -> Seq<Seq<char>> {
    if pattern.len() == 0 {
        split_chars(s)
    } else {
        split_from(s, pattern, 0, 0)
    }
}

/// The texts of a list of strings.
pub open spec fn texts(list: Seq<String>) -> Seq<Seq<char>> {
    Seq::new(list.len(), |i: int| list[i]@)
}

/// Tests whether `pattern` stands in `s` at position `i`; `n` and `m` are the
/// lengths of `s` and `pattern`.
fn stands_at(s: &str, n: usize, pattern: &str, m: usize, i: usize) -> (found: bool)
    requires
        n == s@.len(),
        m == pattern@.len(),
        i + m <= n,
    ensures
        found == matches_at(s@, pattern@, i as int),
{
    let mut k: usize = 0;
    while k < m
        invariant
            n == s@.len(),
            m == pattern@.len(),
            i + m <= n,
            k <= m,
            forall|j: int| 0 <= j < k ==> s@[i + j] == pattern@[j],
        decreases m - k,
    {
        if s.get_char(i + k) != pattern.get_char(k) {
            assert(s@.subrange(i as int, i + m)[k as int] != pattern@[k as int]);
            return false;
        }
        k += 1;
    }
    assert(s@.subrange(i as int, i + m) =~= pattern@);
    true
}

/// Splits `s` at every stand of `pattern`.
pub fn split_string(s: &String, pattern: &str) -> (res: Vec<String>)
    ensures
        texts(res@) == split(s@, pattern@),
{
    split_text(s.as_str(), pattern)
}

/// Splits the text `text` at every stand of `pattern`.
pub fn split_text(text: &str, pattern: &str) -> (res: Vec<String>)
    ensures
        texts(res@) == split(text@, pattern@),
{
    let n = text.unicode_len();
    let m = pattern.unicode_len();
    let mut res: Vec<String> = Vec::new();
    if m == 0 {
        res.push(String::from_str(""));
        proof {
            reveal_strlit("");
        }
        let mut i: usize = 0;
        while i < n
            invariant
                n == text@.len(),
                i <= n,
                res@.len() == i + 1,
                res@[0]@ == Seq::<char>::empty(),
                forall|j: int| 0 <= j < i ==> (#[trigger] res@[j + 1])@ == seq![text@[j]],
            decreases n - i,
        {
            let piece = String::from_str(text.substring_char(i, i + 1));
            assert(piece@ =~= seq![text@[i as int]]);
            res.push(piece);
            i += 1;
        }
        res.push(String::from_str(""));
        assert(texts(res@) =~= split_chars(text@)) by {
            assert forall|j: int| 0 <= j < n + 2 implies texts(res@)[j] == split_chars(text@)[j] by {
                if 1 <= j <= n {
                    assert(res@[(j - 1) + 1]@ == seq![text@[j - 1]]);
                }
            }
        }
        return res;
    }
    let mut start: usize = 0;
    let mut i: usize = 0;
    while n - i >= m
        invariant
            n == text@.len(),
            m == pattern@.len(),
            m > 0,
            start <= i <= n,
            texts(res@) + split_from(text@, pattern@, start as int, i as int) == split(
                text@,
                pattern@,
            ),
        decreases n - i,
    {
        if stands_at(text, n, pattern, m, i) {
            let piece = String::from_str(text.substring_char(start, i));
            let ghost before = res@;
            res.push(piece);
            assert(texts(res@) =~= texts(before) + seq![text@.subrange(start as int, i as int)]);
            assert(texts(res@) + split_from(text@, pattern@, i + m, i + m) =~= texts(before)
                + split_from(text@, pattern@, start as int, i as int));
            i += m;
            start = i;
        } else {
            i += 1;
        }
    }
    let piece = String::from_str(text.substring_char(start, n));
    let ghost before = res@;
    res.push(piece);
    assert(texts(res@) =~= texts(before) + seq![text@.subrange(start as int, n as int)]);
    res
}

/// A split gives at least one piece.
pub proof fn lemma_split_is_not_empty(s: Seq<char>, pattern: Seq<char>)
    ensures
        split(s, pattern).len() >= 1,
{
    if pattern.len() > 0 {
        lemma_split_from_is_not_empty(s, pattern, 0, 0);
    }
}

proof fn lemma_split_from_is_not_empty(s: Seq<char>, pattern: Seq<char>, start: int, i: int)
    ensures
        split_from(s, pattern, start, i).len() >= 1,
    decreases s.len() - i,
{
    if pattern.len() > 0 && 0 <= start <= i && i + pattern.len() <= s.len() && !matches_at(
        s,
        pattern,
        i,
    ) {
        lemma_split_from_is_not_empty(s, pattern, start, i + 1);
    }
}

/// The pieces put together again, with `sep` between every two neighbours.
pub open spec fn join(pieces: Seq<Seq<char>>, sep: Seq<char>) -> Seq<char>
    decreases pieces.len(),
{
    if pieces.len() == 0 {
        Seq::empty()
    } else if pieces.len() == 1 {
        pieces[0]
    } else {
        join(pieces.drop_last(), sep) + sep + pieces.last()
    }
}

/// `s` with every stand of `from` replaced by `to`, the stands found from the
/// left and not overlapping.
pub open spec fn replaced(s: Seq<char>, from: Seq<char>, to: Seq<char>) -> Seq<char> {
    join(split(s, from), to)
}

/// Replaces every stand of `from` in `text` by `to`.
pub fn replace_all(text: &str, from: &str, to: &str) -> (res: String)
    ensures
        res@ == replaced(text@, from@, to@),
{
    let parts = split_text(text, from);
    proof {
        lemma_split_is_not_empty(text@, from@);
    }
    let ghost pieces = texts(parts@);
    let mut res = parts[0].clone();
    assert(pieces.take(1) =~= seq![pieces[0]]);
    let mut k: usize = 1;
    while k < parts.len()
        invariant
            1 <= k <= parts.len(),
            pieces == texts(parts@),
            res@ == join(pieces.take(k as int), to@),
        decreases parts.len() - k,
    {
        res.append(to);
        res.append(parts[k].as_str());
        proof {
            assert(pieces.take(k + 1).drop_last() =~= pieces.take(k as int));
            assert(pieces.take(k + 1).last() == parts@[k as int]@);
        }
        k += 1;
    }
    assert(pieces.take(parts.len() as int) =~= pieces);
    res
}

/// `s` ends in `suffix`.
pub open spec fn ends_with(s: Seq<char>, suffix: Seq<char>) -> bool {
    suffix.len() <= s.len() && s.subrange(s.len() - suffix.len(), s.len() as int) == suffix
}

/// Tests whether `text` ends in `suffix`.
pub fn has_suffix(text: &str, suffix: &str) -> (found: bool)
    ensures
        found == ends_with(text@, suffix@),
{
    let n = text.unicode_len();
    let m = suffix.unicode_len();
    if m > n {
        return false;
    }
    stands_at(text, n, suffix, m, n - m)
}

/// The name of the drawing made for the picture `input`: the part of `input`
/// behind its last `/`, with `.png` replaced by `.svg`, in the directory
/// `output`.
pub open spec fn default_output_name(input: Seq<char>) -> Seq<char> {
    "output/"@ + replaced(split(input, "/"@).last(), ".png"@, ".svg"@)
}

/// Names the drawing made for the picture `input_file`.
pub fn get_default_output_file(input_file: &String) -> (output_file: String)
    requires
        ends_with(input_file@, ".png"@),
    ensures
        output_file@ == default_output_name(input_file@),
{
    let parts = split_string(input_file, "/");
    proof {
        lemma_split_is_not_empty(input_file@, "/"@);
    }
    let file_name = &parts[parts.len() - 1];
    let new_file_name = replace_all(file_name.as_str(), ".png", ".svg");
    let mut output_file = String::from_str("output/");
    output_file.append(new_file_name.as_str());
    output_file
}

} // verus!
