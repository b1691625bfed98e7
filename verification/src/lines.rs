//! Verified line splitting, whitespace trimming and tokenization: the
//! lexical layer under the flat tool-versions parser.

use vstd::prelude::*;

use crate::strutil::{find_char, is_ws, is_ws_or_nl, spec_find_char, ws_char, ws_or_nl_char};

verus! {

/// Splitting into lines, carrying the partially read line `cur`:
/// a `'\n'` closes the current line; a final unterminated line is kept,
/// but a trailing newline does not produce an empty last line.
pub open spec fn split_lines_acc(s: Seq<char>, cur: Seq<char>) -> Seq<Seq<char>>
    decreases s.len(),
{
    if s.len() == 0 {
        if cur.len() == 0 {
            Seq::empty()
        } else {
            seq![cur]
        }
    } else if s[0] == '\n' {
        seq![cur] + split_lines_acc(s.drop_first(), Seq::empty())
    } else {
        split_lines_acc(s.drop_first(), cur.push(s[0]))
    }
}

/// The lines of `s`, separated by `'\n'`.
pub open spec fn spec_split_lines(s: Seq<char>) -> Seq<Seq<char>> {
    split_lines_acc(s, Seq::empty())
}

/// What a successful or failed search means, character by character.
pub proof fn lemma_find_char_props(s: Seq<char>, c: char, from: int)
    requires
        0 <= from <= s.len(),
    ensures
        match spec_find_char(s, c, from) {
            Option::Some(i) => from <= i < s.len() && s[i] == c && forall|j: int|
                from <= j < i ==> s[j] != c,
            Option::None => forall|j: int| from <= j < s.len() ==> s[j] != c,
        },
    decreases s.len() - from,
{
    if from < s.len() && s[from] != c {
        lemma_find_char_props(s, c, from + 1);
    }
}

/// A character occurrence with none before it is what the search finds.
pub proof fn lemma_find_char_complete(s: Seq<char>, c: char, from: int, i: int)
    requires
        0 <= from <= i < s.len(),
        s[i] == c,
        forall|j: int| from <= j < i ==> s[j] != c,
    ensures
        spec_find_char(s, c, from) == Option::Some(i),
    decreases i - from,
{
    if from < i {
        lemma_find_char_complete(s, c, from + 1, i);
    }
}

/// A search in a suffix mirrors the search in the whole string.
pub proof fn lemma_find_skip(s: Seq<char>, c: char, pos: int)
    requires
        0 <= pos <= s.len(),
    ensures
        spec_find_char(s.skip(pos), c, 0) == match spec_find_char(s, c, pos) {
            Option::Some(i) => Option::Some(i - pos),
            Option::None => Option::None::<int>,
        },
{
    lemma_find_char_props(s, c, pos);
    match spec_find_char(s, c, pos) {
        Option::Some(i) => {
            assert(s.skip(pos)[i - pos] == c);
            assert(forall|j: int| 0 <= j < i - pos ==> s.skip(pos)[j] == s[pos + j]);
            lemma_find_char_complete(s.skip(pos), c, 0, i - pos);
        },
        Option::None => {
            lemma_find_char_props(s.skip(pos), c, 0);
            if spec_find_char(s.skip(pos), c, 0).is_some() {
                let i = spec_find_char(s.skip(pos), c, 0).unwrap();
                assert(s[pos + i] == c);
            }
        },
    }
}

/// The head-line characterization of [`split_lines_acc`]: the first
/// newline closes `cur`, and without one the remainder is a single line.
pub proof fn lemma_split_lines_acc(s: Seq<char>, cur: Seq<char>)
    ensures
        match spec_find_char(s, '\n', 0) {
            Option::Some(i) => split_lines_acc(s, cur) == seq![cur + s.take(i)]
                + split_lines_acc(s.skip(i + 1), Seq::empty()),
            Option::None => split_lines_acc(s, cur) == if s.len() == 0 && cur.len() == 0 {
                Seq::<Seq<char>>::empty()
            } else {
                seq![cur + s]
            },
        },
    decreases s.len(),
{
    if s.len() == 0 {
        assert(cur + s =~= cur);
    } else if s[0] == '\n' {
        assert(spec_find_char(s, '\n', 0) == Option::Some(0int));
        assert(cur + s.take(0) =~= cur);
        assert(s.skip(1) =~= s.drop_first());
    } else {
        lemma_split_lines_acc(s.drop_first(), cur.push(s[0]));
        lemma_find_char_props(s.drop_first(), '\n', 0);
        match spec_find_char(s.drop_first(), '\n', 0) {
            Option::Some(i) => {
                assert(s[i + 1] == '\n');
                assert(forall|j: int| 0 <= j < i + 1 ==> s[j] != '\n') by {
                    assert(forall|j: int| 1 <= j < i + 1 ==> s[j] == s.drop_first()[j - 1]);
                }
                lemma_find_char_complete(s, '\n', 0, i + 1);
                assert(cur.push(s[0]) + s.drop_first().take(i) =~= cur + s.take(i + 1));
                assert(s.drop_first().skip(i + 1) =~= s.skip(i + 2));
            },
            Option::None => {
                lemma_find_char_props(s, '\n', 0);
                if spec_find_char(s, '\n', 0).is_some() {
                    let k = spec_find_char(s, '\n', 0).unwrap();
                    assert(s.drop_first()[k - 1] == '\n');
                }
                assert(cur.push(s[0]) + s.drop_first() =~= cur + s);
            },
        }
    }
}

/// Splits `s` into its lines.
pub fn split_lines(s: &str) -> (v: Vec<String>)
    ensures
        v.deep_view() == spec_split_lines(s@),
{
    let n: usize = s.unicode_len();
    let mut v: Vec<String> = Vec::new();
    let mut pos: usize = 0;
    proof {
        assert(s@.skip(0) =~= s@);
        assert(Seq::<Seq<char>>::empty() + spec_split_lines(s@) =~~= spec_split_lines(s@));
    }
    while pos < n
        invariant
            n == s@.len(),
            pos <= n,
            spec_split_lines(s@) == v.deep_view() + spec_split_lines(s@.skip(pos as int)),
        decreases n - pos,
    {
        let ghost pref = v.deep_view();
        let ghost rest = s@.skip(pos as int);
        match find_char(s, '\n', pos) {
            Some(i) => {
                let line = s.substring_char(pos, i);
                v.push(String::from_str(line));
                proof {
                    lemma_find_skip(s@, '\n', pos as int);
                    lemma_split_lines_acc(rest, Seq::empty());
                    assert(Seq::empty() + rest.take(i - pos) =~= s@.subrange(pos as int, i as int));
                    assert(rest.skip(i - pos + 1) =~= s@.skip(i + 1));
                    assert(v.deep_view() =~~= pref + seq![s@.subrange(pos as int, i as int)]);
                    assert(v.deep_view() + spec_split_lines(s@.skip(i + 1)) =~~= pref
                        + spec_split_lines(rest));
                }
                pos = i + 1;
            },
            None => {
                let line = s.substring_char(pos, n);
                v.push(String::from_str(line));
                proof {
                    lemma_find_skip(s@, '\n', pos as int);
                    lemma_split_lines_acc(rest, Seq::empty());
                    assert(rest.len() > 0);
                    assert(Seq::empty() + rest =~= s@.subrange(pos as int, n as int));
                    assert(v.deep_view() =~~= pref + seq![s@.subrange(pos as int, n as int)]);
                    assert(s@.skip(n as int).len() == 0);
                    assert(spec_split_lines(s@.skip(n as int)) == Seq::<Seq<char>>::empty());
                    assert(v.deep_view() + spec_split_lines(s@.skip(n as int)) =~~= pref
                        + spec_split_lines(rest));
                }
                pos = n;
            },
        }
    }
    proof {
        assert(s@.skip(pos as int).len() == 0);
        assert(spec_split_lines(s@.skip(pos as int)) == Seq::<Seq<char>>::empty());
        assert(v.deep_view() + Seq::<Seq<char>>::empty() =~~= v.deep_view());
    }
    v
}

/// `s` without leading in-line whitespace.
pub open spec fn spec_trim_start(s: Seq<char>) -> Seq<char>
    decreases s.len(),
{
    if s.len() == 0 {
        s
    } else if is_ws(s[0]) {
        spec_trim_start(s.drop_first())
    } else {
        s
    }
}

/// A comment line: its first non-whitespace character is `'#'`.
pub open spec fn spec_is_comment_line(l: Seq<char>) -> bool {
    spec_trim_start(l).len() > 0 && spec_trim_start(l)[0] == '#'
}

/// Executable comment-line test.
pub fn is_comment_line(l: &str) -> (r: bool)
    ensures
        r == spec_is_comment_line(l@),
{
    let n: usize = l.unicode_len();
    let mut i: usize = 0;
    proof {
        assert(l@.skip(0) =~= l@);
    }
    while i < n
        invariant
            n == l@.len(),
            i <= n,
            spec_trim_start(l@) == spec_trim_start(l@.skip(i as int)),
        decreases n - i,
    {
        let c = l.get_char(i);
        if !ws_char(c) {
            proof {
                assert(l@.skip(i as int)[0] == c);
                assert(spec_trim_start(l@.skip(i as int)) == l@.skip(i as int));
            }
            return c == '#';
        }
        proof {
            assert(l@.skip(i as int)[0] == c);
            assert(l@.skip(i as int).drop_first() =~= l@.skip(i + 1));
        }
        i = i + 1;
    }
    proof {
        assert(l@.skip(i as int).len() == 0);
    }
    false
}

/// `s` without trailing whitespace (including newlines).
pub open spec fn spec_trim_end(s: Seq<char>) -> Seq<char>
    decreases s.len(),
{
    if s.len() == 0 {
        s
    } else if is_ws_or_nl(s.last()) {
        spec_trim_end(s.drop_last())
    } else {
        s
    }
}

/// Copies `s` without its trailing whitespace.
pub fn trim_end(s: &str) -> (r: String)
    ensures
        r@ == spec_trim_end(s@),
{
    let n: usize = s.unicode_len();
    let mut e: usize = n;
    proof {
        assert(s@.take(n as int) =~= s@);
    }
    while e > 0 && ws_or_nl_char(s.get_char(e - 1))
        invariant
            n == s@.len(),
            e <= n,
            spec_trim_end(s@) == spec_trim_end(s@.take(e as int)),
        decreases e,
    {
        proof {
            assert(s@.take(e as int).last() == s@[e - 1]);
            assert(s@.take(e as int).drop_last() =~= s@.take(e - 1));
        }
        e = e - 1;
    }
    let r = String::from_str(s.substring_char(0, e));
    proof {
        if e == 0 {
            assert(s@.take(0).len() == 0);
        } else {
            assert(s@.take(e as int).last() == s@[e - 1]);
        }
        assert(spec_trim_end(s@.take(e as int)) == s@.take(e as int));
        assert(r@ =~= s@.take(e as int));
    }
    r
}

/// `s` without leading whitespace (including newlines).
pub open spec fn spec_trim_start_any(s: Seq<char>) -> Seq<char>
    decreases s.len(),
{
    if s.len() == 0 {
        s
    } else if is_ws_or_nl(s[0]) {
        spec_trim_start_any(s.drop_first())
    } else {
        s
    }
}

/// `s` without leading and trailing whitespace.
pub open spec fn spec_trim(s: Seq<char>) -> Seq<char> {
    spec_trim_end(spec_trim_start_any(s))
}

/// Copies `s` without leading and trailing whitespace.
pub fn trim(s: &str) -> (r: String)
    ensures
        r@ == spec_trim(s@),
{
    let n: usize = s.unicode_len();
    let mut b: usize = 0;
    proof {
        assert(s@.skip(0) =~= s@);
    }
    while b < n && ws_or_nl_char(s.get_char(b))
        invariant
            n == s@.len(),
            b <= n,
            spec_trim_start_any(s@) == spec_trim_start_any(s@.skip(b as int)),
        decreases n - b,
    {
        proof {
            assert(s@.skip(b as int)[0] == s@[b as int]);
            assert(s@.skip(b as int).drop_first() =~= s@.skip(b + 1));
        }
        b = b + 1;
    }
    proof {
        if b < n {
            assert(s@.skip(b as int)[0] == s@[b as int]);
        } else {
            assert(s@.skip(b as int).len() == 0);
        }
        assert(spec_trim_start_any(s@.skip(b as int)) == s@.skip(b as int));
    }
    let tail = s.substring_char(b, n);
    proof {
        assert(tail@ =~= s@.skip(b as int));
    }
    trim_end(tail)
}

/// Tokenization, carrying the partially read token `cur`: in-line
/// whitespace separates tokens, empty tokens are dropped.
pub open spec fn tokens_acc(s: Seq<char>, cur: Seq<char>) -> Seq<Seq<char>>
    decreases s.len(),
{
    if s.len() == 0 {
        if cur.len() == 0 {
            Seq::empty()
        } else {
            seq![cur]
        }
    } else if is_ws(s[0]) {
        if cur.len() == 0 {
            tokens_acc(s.drop_first(), Seq::empty())
        } else {
            seq![cur] + tokens_acc(s.drop_first(), Seq::empty())
        }
    } else {
        tokens_acc(s.drop_first(), cur.push(s[0]))
    }
}

/// The whitespace-separated tokens of `s`.
pub open spec fn spec_tokens(s: Seq<char>) -> Seq<Seq<char>> {
    tokens_acc(s, Seq::empty())
}

/// Splits `s` into whitespace-separated tokens.
pub fn tokens(s: &str) -> (v: Vec<String>)
    ensures
        v.deep_view() == spec_tokens(s@),
{
    let n: usize = s.unicode_len();
    let mut v: Vec<String> = Vec::new();
    let mut cur = String::new();
    let mut i: usize = 0;
    proof {
        assert(s@.skip(0) =~= s@);
        assert(Seq::<Seq<char>>::empty() + spec_tokens(s@) =~~= spec_tokens(s@));
    }
    while i < n
        invariant
            n == s@.len(),
            i <= n,
            spec_tokens(s@) == v.deep_view() + tokens_acc(s@.skip(i as int), cur@),
        decreases n - i,
    {
        let ghost pref = v.deep_view();
        let ghost oldcur = cur@;
        let c = s.get_char(i);
        proof {
            assert(s@.skip(i as int)[0] == c);
            assert(s@.skip(i as int).drop_first() =~= s@.skip(i + 1));
        }
        if ws_char(c) {
            if cur.unicode_len() > 0 {
                v.push(cur);
                cur = String::new();
                proof {
                    assert(cur@ =~= Seq::<char>::empty());
                    assert(tokens_acc(s@.skip(i as int), oldcur) == seq![oldcur] + tokens_acc(
                        s@.skip(i + 1),
                        Seq::empty(),
                    ));
                    assert(v.deep_view() =~~= pref.push(oldcur));
                    assert(v.deep_view() + tokens_acc(s@.skip(i + 1), cur@) =~~= pref + (
                    seq![oldcur] + tokens_acc(s@.skip(i + 1), Seq::empty())));
                }
            } else {
                proof {
                    assert(oldcur =~= Seq::<char>::empty());
                    assert(tokens_acc(s@.skip(i as int), oldcur) == tokens_acc(
                        s@.skip(i + 1),
                        Seq::empty(),
                    ));
                }
            }
        } else {
            let one = s.substring_char(i, i + 1);
            cur.append(one);
            proof {
                assert(one@ =~= seq![c]);
                assert(cur@ =~= oldcur.push(c));
                assert(tokens_acc(s@.skip(i as int), oldcur) == tokens_acc(
                    s@.skip(i + 1),
                    oldcur.push(c),
                ));
            }
        }
        i = i + 1;
    }
    proof {
        assert(s@.skip(i as int).len() == 0);
    }
    if cur.unicode_len() > 0 {
        let ghost pref = v.deep_view();
        let ghost oldcur = cur@;
        v.push(cur);
        proof {
            assert(v.deep_view() =~~= pref.push(oldcur));
            assert(tokens_acc(Seq::<char>::empty(), oldcur) == seq![oldcur]);
            assert(v.deep_view() =~~= pref + seq![oldcur]);
            assert(tokens_acc(s@.skip(i as int), oldcur) == seq![oldcur]);
            assert(v.deep_view() =~~= spec_tokens(s@));
        }
    } else {
        proof {
            assert(cur@.len() == 0);
            assert(tokens_acc(s@.skip(i as int), cur@) == Seq::<Seq<char>>::empty());
            assert(v.deep_view() + Seq::<Seq<char>>::empty() =~~= v.deep_view());
            assert(v.deep_view() =~~= spec_tokens(s@));
        }
    }
    v
}

} // verus!
