//! Words of a text: splitting on whitespace, joining with single
//! spaces, and rendering numbers as decimal strings.

use vstd::prelude::*;
use vstd::string::StrSliceExecFns;
use vstd::string::StringExecFns;

verus! {

/// The characters treated as word separators.
pub open spec fn is_space_char(c: char) -> bool {
    c == ' ' || c == '\t' || c == '\n' || c == '\r' || c == '\u{b}' || c == '\u{c}'
}

/// Whether `c` separates words.
pub fn is_space(c: char) -> (r: bool)
    ensures
        r == is_space_char(c),
{
    c == ' ' || c == '\t' || c == '\n' || c == '\r' || c == '\u{b}' || c == '\u{c}'
}

/// The whitespace-separated words of `s`: its maximal runs of
/// non-separator characters, in order.
pub open spec fn words_of(s: Seq<char>) -> Seq<Seq<char>>
    decreases s.len(),
{
    if s.len() == 0 {
        seq![]
    } else {
        let prefix = words_of(s.drop_last());
        let c = s.last();
        if is_space_char(c) {
            prefix
        } else if s.len() >= 2 && !is_space_char(s[s.len() - 2]) {
            prefix.update(prefix.len() - 1, prefix.last().push(c))
        } else {
            prefix.push(seq![c])
        }
    }
}

/// The views of a vector of strings.
pub open spec fn views_of(ws: Seq<String>) -> Seq<Seq<char>> {
    ws.map_values(|w: String| w@)
}

pub broadcast proof fn lemma_views_of_len(ws: Seq<String>)
    ensures
        (#[trigger] views_of(ws)).len() == ws.len(),
{
}

pub broadcast proof fn lemma_views_of_index(ws: Seq<String>, i: int)
    requires
        0 <= i < ws.len(),
    ensures
        #[trigger] views_of(ws)[i] == ws[i]@,
{
}

/// Every word of a split is non-empty and free of separator
/// characters, and a text that ends in a non-separator character has
/// at least one word.
pub proof fn lemma_words_nonempty(s: Seq<char>)
    ensures
        forall|i: int| 0 <= i < words_of(s).len() ==> (#[trigger] words_of(s)[i]).len() > 0,
        forall|i: int, j: int|
            0 <= i < words_of(s).len() && 0 <= j < words_of(s)[i].len() ==> !is_space_char(
                #[trigger] words_of(s)[i][j],
            ),
        s.len() > 0 && !is_space_char(s.last()) ==> words_of(s).len() > 0,
    decreases s.len(),
{
    if s.len() > 0 {
        lemma_words_nonempty(s.drop_last());
        let prefix = words_of(s.drop_last());
        let c = s.last();
        if !is_space_char(c) && s.len() >= 2 && !is_space_char(s[s.len() - 2]) {
            assert(s.drop_last().last() == s[s.len() - 2]);
            assert(prefix.len() > 0);
            assert forall|i: int, j: int|
                0 <= i < words_of(s).len() && 0 <= j < words_of(s)[i].len() implies !is_space_char(
                words_of(s)[i][j],
            ) by {
                if i == prefix.len() - 1 && j == prefix.last().len() {
                    assert(words_of(s)[i][j] == c);
                } else if i == prefix.len() - 1 {
                    assert(words_of(s)[i][j] == prefix[i][j]);
                }
            }
        }
    }
}

proof fn lemma_words_append_space(p: Seq<char>)
    ensures
        words_of(p.push(' ')) == words_of(p),
{
    assert(p.push(' ').drop_last() =~= p);
}

proof fn lemma_words_append_word(p: Seq<char>, w: Seq<char>)
    requires
        w.len() > 0,
        forall|j: int| 0 <= j < w.len() ==> !is_space_char(#[trigger] w[j]),
        p.len() == 0 || is_space_char(p.last()),
    ensures
        words_of(p + w) == words_of(p).push(w),
    decreases w.len(),
{
    let pw = p + w;
    assert(pw.last() == w.last());
    assert(pw.drop_last() =~= p + w.drop_last());
    if w.len() == 1 {
        assert(pw.drop_last() =~= p);
        if p.len() == 0 {
            assert(words_of(pw) == words_of(p).push(seq![w[0]]));
        } else {
            assert(pw[pw.len() - 2] == p.last());
            assert(words_of(pw) == words_of(p).push(seq![w[0]]));
        }
        assert(seq![w[0]] =~= w);
    } else {
        let w0 = w.drop_last();
        lemma_words_append_word(p, w0);
        assert(pw[pw.len() - 2] == w0.last());
        assert(w0.last() == w[w.len() - 2]);
        let prefix = words_of(p + w0);
        assert(prefix == words_of(p).push(w0));
        assert(prefix.len() > 0);
        assert(prefix.last() == w0);
        assert(words_of(pw) == prefix.update(prefix.len() - 1, w0.push(w.last())));
        assert(w0.push(w.last()) =~= w);
        assert(prefix.update(prefix.len() - 1, w) =~= words_of(p).push(w));
    }
}

/// The round trip of joining and splitting: joining non-empty,
/// separator-free words with single spaces and splitting the result
/// gives the words back unchanged.  Chunk boundaries are therefore
/// word-aligned: no chunk ever holds part of a word.
pub proof fn lemma_words_of_joined(ws: Seq<Seq<char>>)
    requires
        forall|i: int| 0 <= i < ws.len() ==> (#[trigger] ws[i]).len() > 0,
        forall|i: int, j: int|
            0 <= i < ws.len() && 0 <= j < ws[i].len() ==> !is_space_char(#[trigger] ws[i][j]),
    ensures
        words_of(joined(ws)) == ws,
    decreases ws.len(),
{
    if ws.len() == 0 {
        assert(words_of(joined(ws)) =~= ws);
    } else if ws.len() == 1 {
        let w = ws[0];
        assert(Seq::<char>::empty() + w =~= w);
        lemma_words_append_word(Seq::<char>::empty(), w);
        assert(words_of(Seq::<char>::empty()).push(w) =~= ws);
        assert(joined(ws) == w);
    } else {
        let pre = ws.drop_last();
        let w = ws.last();
        lemma_words_of_joined(pre);
        let jp = joined(pre);
        assert(joined(ws) == jp + seq![' '] + w);
        assert(jp.push(' ') =~= jp + seq![' ']);
        lemma_words_append_space(jp);
        assert((jp + seq![' ']).len() > 0 && is_space_char((jp + seq![' ']).last()));
        lemma_words_append_word(jp + seq![' '], w);
        assert((jp + seq![' ']) + w =~= joined(ws));
        assert(words_of(joined(ws)) == words_of(jp + seq![' ']).push(w));
        assert(words_of(jp + seq![' ']) == words_of(jp.push(' ')));
        assert(words_of(jp).push(w) =~= ws);
    }
}

/// Split `text` into its whitespace-separated words.
pub fn split_words(text: &str) -> (words: Vec<String>)
    ensures
        views_of(words@) == words_of(text@),
{
    let n = text.unicode_len();
    let mut words: Vec<String> = Vec::new();
    let mut start: usize = 0;
    let mut in_word = false;
    let mut i: usize = 0;
    while i < n
        invariant
            n == text@.len(),
            i <= n,
            in_word ==> start < i,
            in_word ==> forall|k: int| start <= k < i ==> !is_space_char(text@[k]),
            !in_word ==> (i == 0 || is_space_char(text@[i - 1])),
            in_word ==> words_of(text@.take(i as int)) == views_of(words@).push(
                text@.subrange(start as int, i as int),
            ),
            !in_word ==> words_of(text@.take(i as int)) == views_of(words@),
        decreases n - i,
    {
        let c = text.get_char(i);
        proof {
            assert(text@.take(i + 1).drop_last() =~= text@.take(i as int));
            assert(text@.take(i + 1).last() == text@[i as int]);
        }
        if is_space(c) {
            if in_word {
                let w = text.substring_char(start, i);
                let ghost old_words = words@;
                words.push(String::from_str(w));
                proof {
                    assert(views_of(words@) =~= views_of(old_words).push(w@));
                }
                in_word = false;
            }
            proof {
                assert(words_of(text@.take(i + 1)) == words_of(text@.take(i as int)));
            }
        } else {
            if in_word {
                proof {
                    let t1 = text@.take(i + 1);
                    assert(t1[i - 1] == text@[i - 1]);
                    assert(!is_space_char(t1[t1.len() - 2]));
                    let prefix = words_of(text@.take(i as int));
                    let cur = text@.subrange(start as int, i as int);
                    assert(prefix == views_of(words@).push(cur));
                    assert(prefix.len() > 0);
                    assert(prefix.last() == cur);
                    assert(words_of(t1) == prefix.update(prefix.len() - 1, cur.push(text@[i as int])));
                    assert(cur.push(text@[i as int]) =~= text@.subrange(start as int, i + 1));
                    assert(prefix.update(prefix.len() - 1, text@.subrange(start as int, i + 1))
                        =~= views_of(words@).push(text@.subrange(start as int, i + 1)));
                }
            } else {
                proof {
                    let t1 = text@.take(i + 1);
                    if i > 0 {
                        assert(t1[i - 1] == text@[i - 1]);
                        assert(is_space_char(t1[t1.len() - 2]));
                    }
                    assert(words_of(t1) == words_of(text@.take(i as int)).push(seq![text@[i as int]]));
                    assert(seq![text@[i as int]] =~= text@.subrange(i as int, i + 1));
                }
                start = i;
                in_word = true;
            }
        }
        i += 1;
    }
    proof {
        assert(text@.take(n as int) =~= text@);
    }
    if in_word {
        let w = text.substring_char(start, n);
        let ghost old_words = words@;
        words.push(String::from_str(w));
        proof {
            assert(views_of(words@) =~= views_of(old_words).push(w@));
        }
    }
    words
}

/// Every word window joined into one string.
pub open spec fn joined_all(ws: Seq<Seq<Seq<char>>>) -> Seq<Seq<char>> {
    ws.map_values(|w: Seq<Seq<char>>| joined(w))
}

pub broadcast proof fn lemma_joined_all_len(ws: Seq<Seq<Seq<char>>>)
    ensures
        (#[trigger] joined_all(ws)).len() == ws.len(),
{
}

pub broadcast proof fn lemma_joined_all_index(ws: Seq<Seq<Seq<char>>>, i: int)
    requires
        0 <= i < ws.len(),
    ensures
        #[trigger] joined_all(ws)[i] == joined(ws[i]),
{
}

/// The words joined with single spaces between them.
pub open spec fn joined(ws: Seq<Seq<char>>) -> Seq<char>
    decreases ws.len(),
{
    if ws.len() == 0 {
        seq![]
    } else if ws.len() == 1 {
        ws[0]
    } else {
        joined(ws.drop_last()) + seq![' '] + ws.last()
    }
}

/// Join `words[from..to]` into one string, with single spaces between
/// the words.
pub fn join_range(words: &Vec<String>, from: usize, to: usize) -> (r: String)
    requires
        from <= to <= words@.len(),
    ensures
        r@ == joined(views_of(words@).subrange(from as int, to as int)),
{
    let mut r = String::new();
    proof {
        assert(views_of(words@).subrange(from as int, from as int) =~= Seq::<Seq<char>>::empty());
    }
    let mut t = from;
    while t < to
        invariant
            from <= t <= to <= words@.len(),
            r@ == joined(views_of(words@).subrange(from as int, t as int)),
        decreases to - t,
    {
        if t > from {
            r.append(" ");
        }
        r.append(words[t].as_str());
        proof {
            reveal_strlit(" ");
            let vs = views_of(words@);
            let sub1 = vs.subrange(from as int, t + 1);
            assert(sub1.drop_last() =~= vs.subrange(from as int, t as int));
            assert(sub1.last() == vs[t as int]);
            assert(vs[t as int] == words@[t as int]@);
            if t > from {
                assert(sub1.len() >= 2);
                assert(" "@ =~= seq![' ']);
                assert(r@ == joined(sub1.drop_last()) + seq![' '] + sub1.last());
                assert(joined(sub1) == joined(sub1.drop_last()) + seq![' '] + sub1.last());
            } else {
                assert(sub1.len() == 1);
                assert(joined(sub1) == sub1[0]);
                assert(r@ =~= sub1[0]);
            }
        }
        t += 1;
    }
    r
}

/// The character for one decimal digit.
pub open spec fn digit_char(d: nat) -> char {
    if d == 0 {
        '0'
    } else if d == 1 {
        '1'
    } else if d == 2 {
        '2'
    } else if d == 3 {
        '3'
    } else if d == 4 {
        '4'
    } else if d == 5 {
        '5'
    } else if d == 6 {
        '6'
    } else if d == 7 {
        '7'
    } else if d == 8 {
        '8'
    } else {
        '9'
    }
}

/// The decimal digits of `n`, most significant first.
pub open spec fn dec_digits(n: nat) -> Seq<char>
    decreases n,
{
    if n < 10 {
        seq![digit_char(n)]
    } else {
        dec_digits(n / 10).push(digit_char(n % 10))
    }
}

fn digit_str(d: u128) -> (r: &'static str)
    requires
        d < 10,
    ensures
        r@ == seq![digit_char(d as nat)],
{
    proof {
        reveal_strlit("0");
        reveal_strlit("1");
        reveal_strlit("2");
        reveal_strlit("3");
        reveal_strlit("4");
        reveal_strlit("5");
        reveal_strlit("6");
        reveal_strlit("7");
        reveal_strlit("8");
        reveal_strlit("9");
    }
    let r = if d == 0 {
        "0"
    } else if d == 1 {
        "1"
    } else if d == 2 {
        "2"
    } else if d == 3 {
        "3"
    } else if d == 4 {
        "4"
    } else if d == 5 {
        "5"
    } else if d == 6 {
        "6"
    } else if d == 7 {
        "7"
    } else if d == 8 {
        "8"
    } else {
        "9"
    };
    proof {
        assert(r@ =~= seq![digit_char(d as nat)]);
    }
    r
}

/// Render `n` in decimal.
pub fn u128_to_string(n: u128) -> (r: String)
    ensures
        r@ == dec_digits(n as nat),
    decreases n,
{
    if n < 10 {
        String::from_str(digit_str(n))
    } else {
        let mut s = u128_to_string(n / 10);
        s.append(digit_str(n % 10));
        proof {
            assert(s@ =~= dec_digits((n / 10) as nat).push(digit_char((n % 10) as nat)));
        }
        s
    }
}

/// Render `n` in decimal.
pub fn u64_to_string(n: u64) -> (r: String)
    ensures
        r@ == dec_digits(n as nat),
{
    u128_to_string(n as u128)
}

} // verus!
