//! The round-trip law of the flat tool-versions format: parsing a dumped
//! file yields the same data, and dumping the parse of a canonical file
//! reproduces the text byte for byte.

use vstd::prelude::*;

use crate::lines::{
    lemma_find_char_complete, lemma_find_char_props, lemma_split_lines_acc, spec_is_comment_line,
    spec_split_lines, spec_tokens, spec_trim_end, spec_trim_start, split_lines_acc, tokens_acc,
};
use crate::plugins::spec_unalias_plugin;
use crate::strutil::{is_ws, is_ws_or_nl, join_with, spec_find_char, spec_spaces};
use crate::tool_versions::{
    append_post, data_of_line, entries_has_key, entries_uniq, entry_of_line, fold_lines,
    lemma_fold_lines_concat, parse_entries, parse_model, parse_pre, parse_step, post_of_line,
    spec_dump, spec_dump_body, spec_entry_line, spec_max_width, spec_pad_to, strip_colons,
    EntryModel, TvModel,
};

verus! {

/// The text whose lines these are: each line followed by one newline.
pub open spec fn unsplit(lines: Seq<Seq<char>>) -> Seq<char>
    decreases lines.len(),
{
    if lines.len() == 0 {
        Seq::empty()
    } else {
        lines[0] + "\n"@ + unsplit(lines.drop_first())
    }
}

/// A text is newline-terminated: empty, or ending in a newline.
pub open spec fn nl_terminated(s: Seq<char>) -> bool {
    s.len() == 0 || s.last() == '\n'
}

/// Splitting distributes over concatenation at a newline boundary.
pub proof fn lemma_split_concat(a: Seq<char>, b: Seq<char>)
    requires
        nl_terminated(a),
    ensures
        spec_split_lines(a + b) == spec_split_lines(a) + spec_split_lines(b),
    decreases a.len(),
{
    if a.len() == 0 {
        assert(a + b =~= b);
        assert(spec_split_lines(a) + spec_split_lines(b) =~= spec_split_lines(b));
    } else {
        lemma_find_char_props(a, '\n', 0);
        match spec_find_char(a, '\n', 0) {
            Option::Some(i) => {
                assert(forall|j: int| 0 <= j < i ==> (a + b)[j] == a[j]);
                assert((a + b)[i] == '\n');
                lemma_find_char_complete(a + b, '\n', 0, i);
                lemma_split_lines_acc(a + b, Seq::empty());
                lemma_split_lines_acc(a, Seq::empty());
                assert((a + b).take(i) =~= a.take(i));
                assert(Seq::empty() + a.take(i) =~= a.take(i));
                assert((a + b).skip(i + 1) =~= a.skip(i + 1) + b);
                assert(nl_terminated(a.skip(i + 1))) by {
                    if a.skip(i + 1).len() > 0 {
                        assert(a.skip(i + 1).last() == a.last());
                    }
                }
                lemma_split_concat(a.skip(i + 1), b);
                assert(spec_split_lines(a + b) =~= spec_split_lines(a) + spec_split_lines(b));
            },
            Option::None => {
                assert(a[a.len() - 1] == '\n');
            },
        }
    }
}

/// A newline-terminated text is the unsplit of its lines.
pub proof fn lemma_unsplit_split(s: Seq<char>)
    requires
        nl_terminated(s),
    ensures
        unsplit(spec_split_lines(s)) == s,
    decreases s.len(),
{
    if s.len() == 0 {
        assert(unsplit(spec_split_lines(s)) =~= s);
    } else {
        lemma_find_char_props(s, '\n', 0);
        match spec_find_char(s, '\n', 0) {
            Option::Some(i) => {
                lemma_split_lines_acc(s, Seq::empty());
                assert(Seq::empty() + s.take(i) =~= s.take(i));
                assert(nl_terminated(s.skip(i + 1))) by {
                    if s.skip(i + 1).len() > 0 {
                        assert(s.skip(i + 1).last() == s.last());
                    }
                }
                lemma_unsplit_split(s.skip(i + 1));
                let lines = spec_split_lines(s);
                assert(lines == seq![s.take(i)] + spec_split_lines(s.skip(i + 1)));
                assert(lines.drop_first() =~= spec_split_lines(s.skip(i + 1)));
                assert(lines[0] == s.take(i));
                assert(s.take(i) + "\n"@ + s.skip(i + 1) =~= s) by {
                    reveal_strlit("\n");
                    assert("\n"@ =~= seq!['\n']);
                    assert(s[i] == '\n');
                }
            },
            Option::None => {
                assert(s[s.len() - 1] == '\n');
            },
        }
    }
}

/// Lines coming out of a split hold no newline.
pub proof fn lemma_split_lines_no_nl(s: Seq<char>)
    ensures
        forall|k: int, j: int|
            0 <= k < spec_split_lines(s).len() && 0 <= j < spec_split_lines(s)[k].len()
                ==> #[trigger] spec_split_lines(s)[k][j] != '\n',
    decreases s.len(),
{
    lemma_find_char_props(s, '\n', 0);
    if s.len() > 0 {
        lemma_split_lines_acc(s, Seq::empty());
        match spec_find_char(s, '\n', 0) {
            Option::Some(i) => {
                lemma_split_lines_no_nl(s.skip(i + 1));
                let lines = spec_split_lines(s);
                assert(Seq::empty() + s.take(i) =~= s.take(i));
                assert forall|k: int, j: int|
                    0 <= k < lines.len() && 0 <= j < lines[k].len() implies #[trigger] lines[k][j]
                    != '\n' by {
                    if k == 0 {
                        assert(lines[0] == s.take(i));
                        assert(s.take(i)[j] == s[j]);
                    } else {
                        assert(lines[k] == spec_split_lines(s.skip(i + 1))[k - 1]);
                    }
                }
            },
            Option::None => {
                assert(Seq::empty() + s =~= s);
            },
        }
    }
}

/// A run without whitespace extends the current token.
pub proof fn lemma_tokens_run(t: Seq<char>, rest: Seq<char>, cur: Seq<char>)
    requires
        forall|j: int| 0 <= j < t.len() ==> !is_ws(#[trigger] t[j]),
    ensures
        tokens_acc(t + rest, cur) == tokens_acc(rest, cur + t),
    decreases t.len(),
{
    if t.len() == 0 {
        assert(t + rest =~= rest);
        assert(cur + t =~= cur);
    } else {
        assert((t + rest)[0] == t[0]);
        assert((t + rest).drop_first() =~= t.drop_first() + rest);
        lemma_tokens_run(t.drop_first(), rest, cur.push(t[0]));
        assert(cur.push(t[0]) + t.drop_first() =~= cur + t);
    }
}

/// Leading spaces are skipped between tokens.
pub proof fn lemma_tokens_spaces(p: nat, rest: Seq<char>)
    ensures
        tokens_acc(spec_spaces(p) + rest, Seq::empty()) == tokens_acc(rest, Seq::empty()),
    decreases p,
{
    if p == 0 {
        assert(spec_spaces(0) + rest =~= rest);
    } else {
        let s = spec_spaces(p) + rest;
        assert(s[0] == ' ');
        assert(s.drop_first() =~= spec_spaces((p - 1) as nat) + rest);
        lemma_tokens_spaces((p - 1) as nat, rest);
    }
}

/// A whitespace-only tail yields no further token.
pub proof fn lemma_tokens_all_ws(t: Seq<char>)
    requires
        forall|j: int| 0 <= j < t.len() ==> is_ws(#[trigger] t[j]),
    ensures
        tokens_acc(t, Seq::empty()) == Seq::<Seq<char>>::empty(),
    decreases t.len(),
{
    if t.len() > 0 {
        lemma_tokens_all_ws(t.drop_first());
    }
}

/// A token in a token list.
pub open spec fn token_ok(v: Seq<char>) -> bool {
    v.len() > 0 && forall|j: int|
        0 <= j < v.len() ==> !is_ws_or_nl(#[trigger] v[j]) && v[j] != '#'
}

/// All members are tokens.
pub open spec fn tokens_ok(vs: Seq<Seq<char>>) -> bool {
    forall|i: int| 0 <= i < vs.len() ==> token_ok(#[trigger] vs[i])
}

/// A join seen from the front.
pub proof fn lemma_join_front(vs: Seq<Seq<char>>, sep: Seq<char>)
    requires
        vs.len() >= 1,
    ensures
        join_with(vs, sep) == if vs.len() == 1 {
            vs[0]
        } else {
            vs[0] + sep + join_with(vs.drop_first(), sep)
        },
    decreases vs.len(),
{
    if vs.len() >= 2 {
        lemma_join_front(vs.drop_last(), sep);
        if vs.len() == 2 {
            assert(vs.drop_last()[0] == vs[0]);
            assert(vs.drop_first() =~= seq![vs[1]]);
            assert(join_with(vs.drop_first(), sep) == vs[1]);
        } else {
            let f = vs.drop_first();
            assert(f.drop_last() =~= vs.drop_last().drop_first());
            assert(f.last() == vs.last());
            assert(join_with(f, sep) == join_with(vs.drop_last().drop_first(), sep) + sep
                + vs.last());
            assert(vs.drop_last()[0] == vs[0]);
            assert(vs[0] + sep + (join_with(vs.drop_last().drop_first(), sep) + sep + vs.last())
                =~= (vs[0] + sep + join_with(vs.drop_last().drop_first(), sep)) + sep + vs.last());
        }
    }
}

/// Tokenizing versions joined by single spaces, plus a whitespace-only
/// tail, recovers the versions.
pub proof fn lemma_tokens_join(vs: Seq<Seq<char>>, trailing: Seq<char>)
    requires
        tokens_ok(vs),
        forall|j: int| 0 <= j < trailing.len() ==> is_ws(#[trigger] trailing[j]),
    ensures
        tokens_acc(join_with(vs, " "@) + trailing, Seq::empty()) == vs,
    decreases vs.len(),
{
    reveal_strlit(" ");
    if vs.len() == 0 {
        assert(join_with(vs, " "@) + trailing =~= trailing);
        lemma_tokens_all_ws(trailing);
        assert(tokens_acc(trailing, Seq::empty()) =~= vs);
    } else {
        lemma_join_front(vs, " "@);
        if vs.len() == 1 {
            assert(join_with(vs, " "@) + trailing =~= vs[0] + trailing);
            lemma_tokens_run(vs[0], trailing, Seq::empty());
            assert(Seq::empty() + vs[0] =~= vs[0]);
            lemma_tokens_tail(vs[0], trailing);
            assert(tokens_acc(trailing, vs[0]) == seq![vs[0]]) by {
                if trailing.len() == 0 {
                } else {
                    assert(is_ws(trailing[0]));
                    assert(trailing.drop_first() =~= trailing.skip(1));
                    lemma_tokens_all_ws(trailing.drop_first());
                    assert(tokens_acc(trailing, vs[0]) == seq![vs[0]] + tokens_acc(
                        trailing.drop_first(),
                        Seq::empty(),
                    ));
                    assert(seq![vs[0]] + Seq::<Seq<char>>::empty() =~= seq![vs[0]]);
                }
            }
            assert(vs =~= seq![vs[0]]);
        } else {
            let restj = join_with(vs.drop_first(), " "@);
            assert(join_with(vs, " "@) + trailing =~= vs[0] + (" "@ + (restj + trailing)));
            lemma_tokens_run(vs[0], " "@ + (restj + trailing), Seq::empty());
            assert(Seq::empty() + vs[0] =~= vs[0]);
            let w = " "@ + (restj + trailing);
            assert(w[0] == ' ');
            assert(w.drop_first() =~= restj + trailing);
            assert(tokens_acc(w, vs[0]) == seq![vs[0]] + tokens_acc(
                restj + trailing,
                Seq::empty(),
            ));
            assert(tokens_ok(vs.drop_first())) by {
                assert(forall|i: int| 0 <= i < vs.drop_first().len() ==> vs.drop_first()[i]
                    == vs[i + 1]);
            }
            lemma_tokens_join(vs.drop_first(), trailing);
            assert(seq![vs[0]] + vs.drop_first() =~= vs);
        }
    }
}

/// An unfinished token is closed by the end of input (helper fact used
/// with a whitespace tail).
proof fn lemma_tokens_tail(cur: Seq<char>, trailing: Seq<char>)
    requires
        cur.len() > 0,
        forall|j: int| 0 <= j < trailing.len() ==> is_ws(#[trigger] trailing[j]),
    ensures
        tokens_acc(trailing, cur) == seq![cur],
    decreases trailing.len(),
{
    if trailing.len() > 0 {
        assert(is_ws(trailing[0]));
        lemma_tokens_all_ws(trailing.drop_first());
        assert(seq![cur] + Seq::<Seq<char>>::empty() =~= seq![cur]);
    }
}

/// A newline-free line followed by a newline splits into that line.
pub proof fn lemma_split_single(l: Seq<char>)
    requires
        forall|j: int| 0 <= j < l.len() ==> #[trigger] l[j] != '\n',
    ensures
        spec_split_lines(l + "\n"@) == seq![l],
{
    reveal_strlit("\n");
    assert("\n"@ =~= seq!['\n']);
    let s = l + "\n"@;
    assert(s[l.len() as int] == '\n');
    lemma_find_char_complete(s, '\n', 0, l.len() as int);
    lemma_split_lines_acc(s, Seq::empty());
    assert(Seq::empty() + s.take(l.len() as int) =~= l);
    assert(s.skip(l.len() as int + 1).len() == 0);
    assert(spec_split_lines(s) =~= seq![l]);
}

/// Splitting inverts unsplitting for newline-free lines.
pub proof fn lemma_split_unsplit(lines: Seq<Seq<char>>)
    requires
        forall|k: int, j: int|
            0 <= k < lines.len() && 0 <= j < lines[k].len() ==> #[trigger] lines[k][j] != '\n',
    ensures
        spec_split_lines(unsplit(lines)) == lines,
        nl_terminated(unsplit(lines)),
    decreases lines.len(),
{
    reveal_strlit("\n");
    assert("\n"@ =~= seq!['\n']);
    if lines.len() == 0 {
        assert(spec_split_lines(unsplit(lines)) =~= lines);
    } else {
        assert(forall|k: int, j: int|
            0 <= k < lines.drop_first().len() && 0 <= j < lines.drop_first()[k].len()
                ==> lines.drop_first()[k][j] == lines[k + 1][j]);
        lemma_split_unsplit(lines.drop_first());
        let a = lines[0] + "\n"@;
        assert(unsplit(lines) =~= a + unsplit(lines.drop_first()));
        assert(nl_terminated(a));
        lemma_split_concat(a, unsplit(lines.drop_first()));
        lemma_split_single(lines[0]);
        assert(spec_split_lines(unsplit(lines)) =~= lines);
        assert(nl_terminated(unsplit(lines))) by {
            if unsplit(lines.drop_first()).len() == 0 {
                assert(unsplit(lines) =~= a);
            }
        }
    }
}

/// A plugin name as written: non-empty, free of whitespace, `#` and `:`.
pub open spec fn name_ok(orig: Seq<char>) -> bool {
    orig.len() > 0 && forall|j: int|
        0 <= j < orig.len() ==> !is_ws_or_nl(#[trigger] orig[j]) && orig[j] != '#' && orig[j]
            != ':'
}

/// The first stored-tail line: empty (no inline comment), or a
/// re-serialized inline comment `" #..."` with a non-empty body.
pub open spec fn pl0_ok(l: Seq<char>) -> bool {
    l.len() == 0 || (l.len() >= 3 && l[0] == ' ' && l[1] == '#')
}

/// A well-formed stored tail: newline-terminated, its first line the
/// inline comment (or nothing), every further line a comment line.
pub open spec fn post_ok(post: Seq<char>) -> bool {
    post.len() > 0 && post.last() == '\n' && pl0_ok(spec_split_lines(post)[0]) && forall|k: int|
        1 <= k < spec_split_lines(post).len() ==> spec_is_comment_line(
            #[trigger] spec_split_lines(post)[k],
        )
}

/// An entry that a dump can carry through a parse.
pub open spec fn entry_rt_ok(e: EntryModel) -> bool {
    name_ok(e.orig) && e.key == spec_unalias_plugin(e.orig) && tokens_ok(e.versions) && post_ok(
        e.post,
    )
}

/// An entry whose dumped block ends in a non-whitespace character before
/// its final newline, so the file-end trim removes nothing else.
pub open spec fn entry_tail_clean(e: EntryModel) -> bool {
    (e.post.len() >= 2 && !is_ws_or_nl(e.post[e.post.len() - 2])) || (e.post == "\n"@
        && e.versions.len() > 0)
}

/// A prologue that survives a dump: empty, or newline-terminated comment
/// lines.
pub open spec fn pre_ok(pre: Seq<char>) -> bool {
    pre.len() == 0 || (pre.last() == '\n' && forall|k: int|
        0 <= k < spec_split_lines(pre).len() ==> spec_is_comment_line(
            #[trigger] spec_split_lines(pre)[k],
        ))
}

/// A model whose dump parses back to itself.
pub open spec fn wf_roundtrip(m: TvModel) -> bool {
    pre_ok(m.pre) && entries_uniq(m.entries) && (forall|i: int|
        0 <= i < m.entries.len() ==> entry_rt_ok(#[trigger] m.entries[i])) && (if m.entries.len()
        > 0 {
        entry_tail_clean(m.entries.last())
    } else {
        m.pre.len() >= 2 && !is_ws_or_nl(m.pre[m.pre.len() - 2])
    })
}

/// The data-line part of a dumped entry, before its stored tail.
pub open spec fn line1_data(e: EntryModel, w: nat) -> Seq<char> {
    spec_pad_to(e.orig, w) + " "@ + join_with(e.versions, " "@)
}

/// The first line of a dumped entry: data followed by the inline comment.
pub open spec fn line1(e: EntryModel, w: nat) -> Seq<char> {
    line1_data(e, w) + spec_split_lines(e.post)[0]
}

/// The lines of one dumped entry.
pub open spec fn block_lines(e: EntryModel, w: nat) -> Seq<Seq<char>> {
    seq![line1(e, w)] + spec_split_lines(e.post).drop_first()
}

/// No character of a dumped data line is a newline or a `#`.
pub proof fn lemma_line1_data_chars(e: EntryModel, w: nat)
    requires
        entry_rt_ok(e),
    ensures
        forall|j: int|
            0 <= j < line1_data(e, w).len() ==> #[trigger] line1_data(e, w)[j] != '\n'
                && line1_data(e, w)[j] != '#',
{
    reveal_strlit(" ");
    assert(" "@ =~= seq![' ']);
    let d = line1_data(e, w);
    let p = spec_pad_to(e.orig, w);
    let jn = join_with(e.versions, " "@);
    lemma_join_chars(e.versions);
    assert forall|j: int| 0 <= j < d.len() implies #[trigger] d[j] != '\n' && d[j] != '#' by {
        if j < p.len() {
            assert(d[j] == p[j]);
            if j < e.orig.len() {
                assert(p[j] == e.orig[j]);
            } else {
                assert(p[j] == ' ');
            }
        } else if j == p.len() {
            assert(d[j] == ' ');
        } else {
            assert(d[j] == jn[j - p.len() - 1]);
        }
    }
}

/// Characters of a join of tokens are token characters or spaces.
pub proof fn lemma_join_chars(vs: Seq<Seq<char>>)
    requires
        tokens_ok(vs),
    ensures
        forall|j: int|
            0 <= j < join_with(vs, " "@).len() ==> #[trigger] join_with(vs, " "@)[j] != '\n'
                && join_with(vs, " "@)[j] != '#',
    decreases vs.len(),
{
    reveal_strlit(" ");
    assert(" "@ =~= seq![' ']);
    if vs.len() == 0 {
    } else if vs.len() == 1 {
        assert(join_with(vs, " "@) == vs[0]);
        assert(token_ok(vs[0]));
    } else {
        assert(tokens_ok(vs.drop_last())) by {
            assert(forall|i: int| 0 <= i < vs.drop_last().len() ==> vs.drop_last()[i] == vs[i]);
        }
        lemma_join_chars(vs.drop_last());
        let jn = join_with(vs, " "@);
        let front = join_with(vs.drop_last(), " "@);
        assert(jn == front + " "@ + vs.last());
        assert(token_ok(vs.last()));
        assert forall|j: int| 0 <= j < jn.len() implies #[trigger] jn[j] != '\n' && jn[j]
            != '#' by {
            if j < front.len() {
                assert(jn[j] == front[j]);
            } else if j == front.len() {
                assert(jn[j] == ' ');
            } else {
                assert(jn[j] == vs.last()[j - front.len() - 1]);
            }
        }
    }
}

/// What parsing the first line of a dumped entry yields.
pub proof fn lemma_line1_parse(e: EntryModel, w: nat)
    requires
        entry_rt_ok(e),
    ensures
        !spec_is_comment_line(line1(e, w)),
        entry_of_line(line1(e, w)) == Option::Some(
            EntryModel {
                key: e.key,
                orig: e.orig,
                versions: e.versions,
                post: spec_split_lines(e.post)[0] + "\n"@,
            },
        ),
{
    reveal_strlit(" ");
    reveal_strlit("\n");
    reveal_strlit(" #");
    assert(" "@ =~= seq![' ']);
    assert("\n"@ =~= seq!['\n']);
    assert(" #"@ =~= seq![' ', '#']);
    let l = line1(e, w);
    let d = line1_data(e, w);
    let pl0 = spec_split_lines(e.post)[0];
    let p = spec_pad_to(e.orig, w);
    lemma_line1_data_chars(e, w);
    // the line starts with a plain name character
    assert(l[0] == e.orig[0]) by {
        assert(p[0] == e.orig[0]);
        assert(d[0] == p[0]);
    }
    assert(!spec_is_comment_line(l)) by {
        assert(spec_trim_start(l) == l);
    }
    // where the inline comment starts, if anywhere
    lemma_split_lines_no_nl(e.post);
    if pl0.len() == 0 {
        assert(l =~= d);
        lemma_find_char_props(l, '#', 0);
        if spec_find_char(l, '#', 0).is_some() {
            let i = spec_find_char(l, '#', 0).unwrap();
            assert(l[i] == '#');
        }
        assert(data_of_line(l) == l);
        assert(post_of_line(l) == "\n"@);
        assert(pl0 + "\n"@ =~= "\n"@);
    } else {
        let pos = d.len() as int + 1;
        assert(l[pos] == pl0[1]);
        assert(l[pos] == '#');
        assert(forall|j: int| 0 <= j < pos ==> #[trigger] l[j] != '#') by {
            assert(l[d.len() as int] == pl0[0]);
            assert(pl0[0] == ' ');
        }
        lemma_find_char_complete(l, '#', 0, pos);
        assert(data_of_line(l) == l.take(pos));
        assert(l.skip(pos + 1) =~= pl0.skip(2));
        assert(l.skip(pos + 1).len() > 0);
        assert(post_of_line(l) == " #"@ + pl0.skip(2) + "\n"@);
        assert(" #"@ + pl0.skip(2) + "\n"@ =~= pl0 + "\n"@);
    }
    // tokens of the data part: the written name, then the versions
    let trailing: Seq<char> = if pl0.len() == 0 {
        Seq::empty()
    } else {
        seq![' ']
    };
    assert(data_of_line(l) =~= d + trailing) by {
        if pl0.len() > 0 {
            assert(l.take(d.len() as int + 1) =~= d + seq![pl0[0]]);
        }
    }
    lemma_tokens_data(e, w, trailing);
    let toks = spec_tokens(data_of_line(l));
    assert(toks == seq![e.orig] + e.versions);
    assert(toks.len() > 0);
    assert(toks[0] == e.orig);
    assert(strip_colons(e.orig) == e.orig);
    assert(toks.drop_first() =~= e.versions);
}

/// Tokenizing a dumped data line (plus an all-whitespace tail) recovers
/// the name and the versions.
pub proof fn lemma_tokens_data(e: EntryModel, w: nat, trailing: Seq<char>)
    requires
        entry_rt_ok(e),
        forall|j: int| 0 <= j < trailing.len() ==> is_ws(#[trigger] trailing[j]),
    ensures
        spec_tokens(line1_data(e, w) + trailing) == seq![e.orig] + e.versions,
{
    reveal_strlit(" ");
    assert(" "@ =~= seq![' ']);
    let q: nat = if e.orig.len() >= w {
        0
    } else {
        (w - e.orig.len()) as nat
    };
    let jn = join_with(e.versions, " "@);
    assert(line1_data(e, w) + trailing =~= e.orig + (spec_spaces((q + 1) as nat) + (jn
        + trailing))) by {
        assert(spec_pad_to(e.orig, w) =~= e.orig + spec_spaces(q));
        assert(spec_spaces(q) + " "@ =~= spec_spaces((q + 1) as nat));
    }
    lemma_tokens_run(e.orig, spec_spaces((q + 1) as nat) + (jn + trailing), Seq::empty());
    assert(Seq::empty() + e.orig =~= e.orig);
    let rest = spec_spaces((q + 1) as nat) + (jn + trailing);
    assert(rest[0] == ' ');
    assert(rest.drop_first() =~= spec_spaces(q) + (jn + trailing));
    assert(tokens_acc(rest, e.orig) == seq![e.orig] + tokens_acc(
        spec_spaces(q) + (jn + trailing),
        Seq::empty(),
    ));
    lemma_tokens_spaces(q, jn + trailing);
    lemma_tokens_join(e.versions, trailing);
    assert(spec_tokens(line1_data(e, w) + trailing) == seq![e.orig] + e.versions);
}

/// A single line folds as one parse step.
pub proof fn lemma_fold_lines_single(acc: Seq<EntryModel>, l: Seq<char>)
    ensures
        fold_lines(acc, seq![l]) == parse_step(acc, l),
{
    assert(seq![l].drop_last() =~= Seq::<Seq<char>>::empty());
    assert(fold_lines(acc, Seq::<Seq<char>>::empty()) == acc);
    assert(seq![l].last() == l);
}

/// Comment lines folded into the entries append to the last entry's
/// stored tail, verbatim.
pub proof fn lemma_parse_comments(acc: Seq<EntryModel>, cl: Seq<Seq<char>>)
    requires
        acc.len() > 0,
        forall|k: int| 0 <= k < cl.len() ==> spec_is_comment_line(#[trigger] cl[k]),
    ensures
        fold_lines(acc, cl) == acc.update(
            acc.len() - 1,
            EntryModel {
                key: acc.last().key,
                orig: acc.last().orig,
                versions: acc.last().versions,
                post: acc.last().post + unsplit(cl),
            },
        ),
    decreases cl.len(),
{
    let tgt = acc.update(
        acc.len() - 1,
        EntryModel {
            key: acc.last().key,
            orig: acc.last().orig,
            versions: acc.last().versions,
            post: acc.last().post + unsplit(cl),
        },
    );
    if cl.len() == 0 {
        assert(fold_lines(acc, cl) == acc);
        assert(acc.last().post + unsplit(cl) =~= acc.last().post);
        assert(tgt =~~= acc);
    } else {
        let acc1 = parse_step(acc, cl[0]);
        assert(acc1 == acc.update(acc.len() - 1, append_post(acc.last(), cl[0])));
        assert(seq![cl[0]] + cl.drop_first() =~= cl);
        lemma_fold_lines_concat(acc, seq![cl[0]], cl.drop_first());
        lemma_fold_lines_single(acc, cl[0]);
        assert(forall|k: int| 0 <= k < cl.drop_first().len() ==> cl.drop_first()[k] == cl[k + 1]);
        lemma_parse_comments(acc1, cl.drop_first());
        assert(acc1.last() == append_post(acc.last(), cl[0]));
        assert(fold_lines(acc, cl) =~~= tgt) by {
            assert(acc.last().post + cl[0] + "\n"@ + unsplit(cl.drop_first()) =~= acc.last().post
                + unsplit(cl));
        }
    }
}

/// The lines of all dumped entries, in order.
pub open spec fn blocks_lines(es: Seq<EntryModel>, w: nat) -> Seq<Seq<char>>
    decreases es.len(),
{
    if es.len() == 0 {
        Seq::empty()
    } else {
        blocks_lines(es.drop_last(), w) + block_lines(es.last(), w)
    }
}

/// Folding the dumped entries' lines appends exactly those entries.
pub proof fn lemma_parse_blocks(acc: Seq<EntryModel>, es: Seq<EntryModel>, w: nat)
    requires
        forall|i: int| 0 <= i < es.len() ==> entry_rt_ok(#[trigger] es[i]),
        entries_uniq(es),
        forall|i: int, j: int|
            #![trigger acc[i], es[j]]
            0 <= i < acc.len() && 0 <= j < es.len() ==> acc[i].key != es[j].key,
    ensures
        fold_lines(acc, blocks_lines(es, w)) == acc + es,
    decreases es.len(),
{
    if es.len() == 0 {
        assert(fold_lines(acc, blocks_lines(es, w)) == acc);
        assert(acc + es =~= acc);
    } else {
        let front = es.drop_last();
        let e = es.last();
        assert(entries_uniq(front) && forall|i: int|
            0 <= i < front.len() ==> entry_rt_ok(#[trigger] front[i])) by {
            assert(forall|i: int| 0 <= i < front.len() ==> front[i] == es[i]);
        }
        lemma_parse_blocks(acc, front, w);
        lemma_fold_lines_concat(acc, blocks_lines(front, w), block_lines(e, w));
        let acc1 = acc + front;
        let pl = spec_split_lines(e.post);
        assert(nl_terminated(e.post));
        lemma_unsplit_split(e.post);
        assert(pl.len() > 0) by {
            if pl.len() == 0 {
                assert(unsplit(pl).len() == 0);
            }
        }
        // the data line files the entry with its first tail line
        lemma_line1_parse(e, w);
        let e1 = EntryModel {
            key: e.key,
            orig: e.orig,
            versions: e.versions,
            post: spec_split_lines(e.post)[0] + "\n"@,
        };
        assert(!entries_has_key(acc1, e.key)) by {
            if entries_has_key(acc1, e.key) {
                let t = choose|t: int| 0 <= t < acc1.len() && acc1[t].key == e.key;
                if t < acc.len() {
                    assert(acc[t].key != es[es.len() - 1].key);
                } else {
                    assert(front[t - acc.len()].key == es[t - acc.len()].key);
                    assert(es[t - acc.len()].key != es[es.len() - 1].key);
                }
            }
        }
        assert(parse_step(acc1, line1(e, w)) == acc1.push(e1));
        // the remaining tail lines re-attach to it
        let plrest = spec_split_lines(e.post).drop_first();
        assert(block_lines(e, w) =~= seq![line1(e, w)] + plrest);
        lemma_fold_lines_concat(acc1, seq![line1(e, w)], plrest);
        lemma_fold_lines_single(acc1, line1(e, w));
        assert forall|k: int|
            0 <= k < plrest.len() implies spec_is_comment_line(#[trigger] plrest[k]) by {
            assert(plrest[k] == spec_split_lines(e.post)[k + 1]);
        }
        lemma_parse_comments(acc1.push(e1), plrest);
        // the rebuilt tail is the original tail
        assert(e1.post + unsplit(plrest) =~= unsplit(pl)) by {
            reveal_strlit("\n");
            assert("\n"@ =~= seq!['\n']);
            assert(unsplit(pl) == pl[0] + "\n"@ + unsplit(pl.drop_first()));
        }
        assert(fold_lines(acc, blocks_lines(es, w)) =~~= acc + es) by {
            assert(acc1.push(e1).update(acc1.len() as int, e) =~~= acc1.push(e));
            assert(acc1.push(e) =~~= acc + es);
        }
    }
}

/// Leading comment lines are collected verbatim into the prologue, which
/// ends at the first data line (or at the end of the file).
pub proof fn lemma_parse_pre_lines(pl: Seq<Seq<char>>, rest: Seq<Seq<char>>)
    requires
        forall|k: int| 0 <= k < pl.len() ==> spec_is_comment_line(#[trigger] pl[k]),
        rest.len() > 0 ==> !spec_is_comment_line(rest[0]),
    ensures
        parse_pre(pl + rest) == unsplit(pl),
        fold_lines(Seq::<EntryModel>::empty(), pl) == Seq::<EntryModel>::empty(),
    decreases pl.len(),
{
    if pl.len() == 0 {
        assert(pl + rest =~= rest);
        if rest.len() > 0 {
            assert(parse_pre(rest) == Seq::<char>::empty());
        }
    } else {
        assert((pl + rest)[0] == pl[0]);
        assert((pl + rest).drop_first() =~= pl.drop_first() + rest);
        assert(forall|k: int| 0 <= k < pl.drop_first().len() ==> pl.drop_first()[k] == pl[k + 1]);
        lemma_parse_pre_lines(pl.drop_first(), rest);
        assert(parse_pre(pl + rest) == pl[0] + "\n"@ + unsplit(pl.drop_first()));
        // the same comment lines leave the entry fold untouched
        assert(pl.drop_last() =~= pl.take(pl.len() - 1));
        assert(forall|k: int| 0 <= k < pl.drop_last().len() ==> pl.drop_last()[k] == pl[k]);
        lemma_parse_pre_lines(pl.drop_last(), Seq::empty());
        assert(fold_lines(Seq::<EntryModel>::empty(), pl) == parse_step(
            fold_lines(Seq::<EntryModel>::empty(), pl.drop_last()),
            pl.last(),
        ));
        assert(parse_step(Seq::<EntryModel>::empty(), pl.last()) == Seq::<EntryModel>::empty());
    }
}

/// A dumped entry's text is its lines, newline-terminated.
pub proof fn lemma_entry_line_split(e: EntryModel, w: nat)
    requires
        entry_rt_ok(e),
    ensures
        spec_split_lines(spec_entry_line(e, w)) == block_lines(e, w),
        nl_terminated(spec_entry_line(e, w)),
        spec_entry_line(e, w).len() > 0,
{
    reveal_strlit("\n");
    assert("\n"@ =~= seq!['\n']);
    let pl = spec_split_lines(e.post);
    lemma_unsplit_split(e.post);
    assert(pl.len() > 0) by {
        if pl.len() == 0 {
            assert(unsplit(pl).len() == 0);
        }
    }
    lemma_split_lines_no_nl(e.post);
    lemma_line1_data_chars(e, w);
    let a = line1(e, w) + "\n"@;
    assert(spec_entry_line(e, w) =~= a + unsplit(pl.drop_first())) by {
        assert(unsplit(pl) == pl[0] + "\n"@ + unsplit(pl.drop_first()));
        assert(e.post == unsplit(pl));
    }
    lemma_split_concat(a, unsplit(pl.drop_first()));
    lemma_split_single(line1(e, w));
    assert(forall|k: int, j: int|
        0 <= k < pl.drop_first().len() && 0 <= j < pl.drop_first()[k].len()
            ==> pl.drop_first()[k][j] == pl[k + 1][j]);
    lemma_split_unsplit(pl.drop_first());
    assert(spec_split_lines(spec_entry_line(e, w)) =~= block_lines(e, w));
    assert(spec_entry_line(e, w).last() == '\n') by {
        assert(e.post.last() == '\n');
    }
}

/// The dumped body splits into the entries' lines.
pub proof fn lemma_split_body(pre: Seq<char>, es: Seq<EntryModel>, w: nat)
    requires
        nl_terminated(pre),
        forall|i: int| 0 <= i < es.len() ==> entry_rt_ok(#[trigger] es[i]),
    ensures
        spec_split_lines(pre + spec_dump_body(es, w)) == spec_split_lines(pre) + blocks_lines(
            es,
            w,
        ),
        nl_terminated(pre + spec_dump_body(es, w)),
    decreases es.len(),
{
    if es.len() == 0 {
        assert(pre + spec_dump_body(es, w) =~= pre);
        assert(spec_split_lines(pre) + blocks_lines(es, w) =~= spec_split_lines(pre));
    } else {
        let front = es.drop_last();
        assert(forall|i: int| 0 <= i < front.len() ==> front[i] == es[i]);
        lemma_split_body(pre, front, w);
        let a = pre + spec_dump_body(front, w);
        let e = es.last();
        lemma_entry_line_split(e, w);
        assert(pre + spec_dump_body(es, w) =~= a + spec_entry_line(e, w));
        lemma_split_concat(a, spec_entry_line(e, w));
        assert(spec_split_lines(pre + spec_dump_body(es, w)) =~= spec_split_lines(pre)
            + blocks_lines(es, w));
        assert(nl_terminated(a + spec_entry_line(e, w))) by {
            assert(spec_entry_line(e, w).last() == '\n') by {
                assert(e.post.last() == '\n');
            }
            assert((a + spec_entry_line(e, w)).last() == spec_entry_line(e, w).last());
        }
    }
}

/// Trimming a clean text (newline-terminated, no other trailing
/// whitespace) removes exactly the final newline.
pub proof fn lemma_trim_end_clean(s: Seq<char>)
    requires
        s.len() >= 2,
        s.last() == '\n',
        !is_ws_or_nl(s[s.len() - 2]),
    ensures
        spec_trim_end(s) + "\n"@ == s,
{
    assert(spec_trim_end(s) == spec_trim_end(s.drop_last()));
    assert(s.drop_last().last() == s[s.len() - 2]);
    assert(spec_trim_end(s.drop_last()) == s.drop_last());
    assert(s.drop_last() + "\n"@ =~= s) by {
        reveal_strlit("\n");
        assert("\n"@ =~= seq!['\n']);
    }
}

/// A dumped entry ends cleanly: its last two characters are a
/// non-whitespace character and the final newline.
pub proof fn lemma_entry_line_clean(e: EntryModel, w: nat)
    requires
        entry_rt_ok(e),
        entry_tail_clean(e),
    ensures
        spec_entry_line(e, w).len() >= 2,
        spec_entry_line(e, w).last() == '\n',
        !is_ws_or_nl(spec_entry_line(e, w)[spec_entry_line(e, w).len() - 2]),
{
    reveal_strlit(" ");
    reveal_strlit("\n");
    assert(" "@ =~= seq![' ']);
    assert("\n"@ =~= seq!['\n']);
    let l = spec_entry_line(e, w);
    let d = line1_data(e, w);
    assert(l =~= d + e.post);
    assert(l.last() == e.post.last());
    if e.post.len() >= 2 && !is_ws_or_nl(e.post[e.post.len() - 2]) {
        assert(l[l.len() - 2] == e.post[e.post.len() - 2]);
    } else {
        assert(e.post == "\n"@ && e.versions.len() > 0);
        let jn = join_with(e.versions, " "@);
        lemma_join_last(e.versions);
        assert(l[l.len() - 2] == d.last());
        assert(d.last() == jn.last());
    }
}

/// A join of tokens ends with a token character.
pub proof fn lemma_join_last(vs: Seq<Seq<char>>)
    requires
        vs.len() > 0,
        tokens_ok(vs),
    ensures
        join_with(vs, " "@).len() > 0,
        !is_ws_or_nl(join_with(vs, " "@).last()),
    decreases vs.len(),
{
    if vs.len() == 1 {
        assert(join_with(vs, " "@) == vs[0]);
        assert(token_ok(vs[0]));
    } else {
        let jn = join_with(vs, " "@);
        assert(jn == join_with(vs.drop_last(), " "@) + " "@ + vs.last());
        assert(token_ok(vs.last()));
        assert(jn.last() == vs.last().last());
    }
}

/// The first line of the dumped entries.
pub proof fn lemma_blocks_first(es: Seq<EntryModel>, w: nat)
    requires
        es.len() > 0,
    ensures
        blocks_lines(es, w).len() > 0,
        blocks_lines(es, w)[0] == line1(es[0], w),
    decreases es.len(),
{
    if es.len() == 1 {
        assert(blocks_lines(es, w) =~= block_lines(es[0], w));
    } else {
        assert(es.drop_last()[0] == es[0]);
        lemma_blocks_first(es.drop_last(), w);
        assert(blocks_lines(es, w)[0] == blocks_lines(es.drop_last(), w)[0]);
    }
}

/// The round-trip law, data side: dumping a well-formed file model and
/// parsing the text back yields the same model — the prologue, every
/// written name, every version list and every stored comment included.
pub proof fn lemma_parse_dump(m: TvModel)
    requires
        wf_roundtrip(m),
    ensures
        parse_model(spec_dump(m)) == m,
{
    let es = m.entries;
    let w = spec_max_width(es);
    let full = m.pre + spec_dump_body(es, w);
    assert(nl_terminated(m.pre));
    lemma_split_body(m.pre, es, w);
    // trimming removes exactly the final newline
    if es.len() > 0 {
        assert(entry_rt_ok(es.last()));
        lemma_entry_line_clean(es.last(), w);
        let bl = spec_entry_line(es.last(), w);
        assert(spec_dump_body(es, w) == spec_dump_body(es.drop_last(), w) + bl);
        assert(full.len() >= 2);
        assert(full.last() == bl.last());
        assert(full[full.len() - 2] == bl[bl.len() - 2]);
        lemma_trim_end_clean(full);
    } else {
        assert(full =~= m.pre);
        lemma_trim_end_clean(full);
    }
    assert(spec_dump(m) == full);
    // the lines of the dump
    let prelines = spec_split_lines(m.pre);
    let blocks = blocks_lines(es, w);
    assert(spec_split_lines(full) == prelines + blocks);
    assert(blocks.len() > 0 ==> !spec_is_comment_line(blocks[0])) by {
        if es.len() > 0 {
            lemma_blocks_first(es, w);
            lemma_line1_parse(es[0], w);
        } else {
            assert(blocks.len() == 0);
        }
    }
    // the prologue comes back verbatim
    lemma_parse_pre_lines(prelines, blocks);
    lemma_unsplit_split(m.pre);
    assert(parse_pre(spec_split_lines(full)) == m.pre);
    // the entries come back verbatim
    lemma_fold_lines_concat(Seq::<EntryModel>::empty(), prelines, blocks);
    lemma_parse_blocks(Seq::<EntryModel>::empty(), es, w);
    assert(parse_entries(spec_split_lines(full)) == Seq::<EntryModel>::empty() + es);
    assert(Seq::<EntryModel>::empty() + es =~= es);
    assert(parse_model(spec_dump(m)) =~~= m);
}

/// The round-trip law, text side: a canonical file — one that some
/// well-formed model dumps to — is reproduced byte for byte by parsing
/// it and dumping the result.
pub proof fn lemma_dump_parse(s: Seq<char>)
    requires
        exists|m: TvModel| wf_roundtrip(m) && s == spec_dump(m),
    ensures
        spec_dump(parse_model(s)) == s,
{
    let m = choose|m: TvModel| wf_roundtrip(m) && s == spec_dump(m);
    lemma_parse_dump(m);
}

/// Comment preservation: replacing one plugin's version list keeps the
/// prologue, the written names and every stored comment verbatim, and
/// the changed file still round-trips.
pub proof fn lemma_comment_preservation(m: TvModel, k: Seq<char>, vs: Seq<Seq<char>>)
    requires
        wf_roundtrip(m),
        entries_has_key(m.entries, k),
        tokens_ok(vs),
        crate::tool_versions::entry_index(m.entries, k) == m.entries.len() - 1
            && m.entries.last().post == "\n"@ ==> vs.len() > 0,
    ensures
        ({
            let m2 = TvModel {
                pre: m.pre,
                entries: crate::tool_versions::spec_replace_versions(m.entries, k, vs),
            };
            &&& wf_roundtrip(m2)
            &&& parse_model(spec_dump(m2)) == m2
            &&& m2.pre == m.pre
            &&& m2.entries.len() == m.entries.len()
            &&& forall|i: int|
                0 <= i < m.entries.len() ==> (#[trigger] m2.entries[i]).post == m.entries[i].post
                    && m2.entries[i].orig == m.entries[i].orig && m2.entries[i].key
                    == m.entries[i].key
        }),
{
    crate::tool_versions::lemma_entry_index(m.entries, k);
    let i = crate::tool_versions::entry_index(m.entries, k);
    let m2 = TvModel {
        pre: m.pre,
        entries: crate::tool_versions::spec_replace_versions(m.entries, k, vs),
    };
    assert(m2.entries == m.entries.update(
        i,
        EntryModel {
            key: m.entries[i].key,
            orig: m.entries[i].orig,
            versions: vs,
            post: m.entries[i].post,
        },
    ));
    assert(wf_roundtrip(m2)) by {
        assert(forall|j: int| 0 <= j < m2.entries.len() ==> m2.entries[j].key == m.entries[j].key);
        assert forall|j: int| 0 <= j < m2.entries.len() implies entry_rt_ok(
            #[trigger] m2.entries[j],
        ) by {
            if j != i {
                assert(m2.entries[j] == m.entries[j]);
            }
        }
        assert(entry_tail_clean(m2.entries.last())) by {
            if i == m.entries.len() - 1 {
                let e = m.entries.last();
                if e.post.len() >= 2 && !is_ws_or_nl(e.post[e.post.len() - 2]) {
                } else {
                    assert(e.post == "\n"@ && vs.len() > 0);
                }
            } else {
                assert(m2.entries.last() == m.entries.last());
            }
        }
    }
    lemma_parse_dump(m2);
}

} // verus!
