use vstd::prelude::*;
use vstd::string::*;

use crate::row::{kinds, row_line, row_model, row_shown, texts, verdicts, Row, RowModel};
use crate::text::{
    find_header, folds_to, header_at, header_name, lemma_words_have_no_space, lemma_split_at_semicolon, lemma_split_without_semicolon, non_empty,
    policy_text, split_by, split_pieces, strip_header, views, words,
};

verus! {

/// The directives of the segments, in order, leaving out each segment that
/// holds fewer than two words.
pub open spec fn rows_of(segments: Seq<Seq<char>>) -> Seq<RowModel>
    decreases segments.len(),
{
    if segments.len() == 0 {
        Seq::empty()
    } else {
        let r = rows_of(segments.drop_last());
        match row_model(segments.last()) {
            Some(m) => r.push(m),
            None => r,
        }
    }
}

/// The directives of a policy, which `;` separates.
pub open spec fn policy_rows(text: Seq<char>) -> Seq<RowModel> {
    rows_of(split_by(text, false))
}

/// What stands between the values of a directive: a space, or a line break
/// and a tab in multi-line mode.
pub open spec fn separator(multi_line: bool) -> Seq<char> {
    if multi_line {
        "\n\t"@
    } else {
        " "@
    }
}

/// The lines joined by `;` and a line break.
pub open spec fn join_lines(lines: Seq<Seq<char>>) -> Seq<char>
    decreases lines.len(),
{
    if lines.len() == 0 {
        Seq::empty()
    } else if lines.len() == 1 {
        lines[0]
    } else {
        join_lines(lines.drop_last()) + ";\n"@ + lines.last()
    }
}

/// The directives as text, with styling switched off.
pub open spec fn plain_rendering(rows: Seq<RowModel>, sep: Seq<char>) -> Seq<char> {
    join_lines(rows.map_values(|m: RowModel| row_line(m.0, m.1, sep)))
}

/// `r` is the directives as the colouring may print them.
pub open spec fn policy_shown(r: Seq<char>, rows: Seq<RowModel>, sep: Seq<char>) -> bool {
    exists|lines: Seq<Seq<char>>|
        {
            &&& lines.len() == rows.len()
            &&& forall|i: int|
                0 <= i < lines.len() ==> row_shown(
                    #[trigger] lines[i],
                    rows[i].0,
                    rows[i].1,
                    verdicts(rows[i].1),
                    sep,
                )
            &&& r == join_lines(lines)
        }
}

/// Renders each directive of the policy `text` on a line of its own; the
/// values are coloured by verdict where `styled` holds, and written as they
/// are where it does not.
pub fn render(text: &str, multi_line: bool, styled: bool) -> (r: String)
    ensures
        styled ==> policy_shown(r@, policy_rows(text@), separator(multi_line)),
        !styled ==> r@ == plain_rendering(policy_rows(text@), separator(multi_line)),
{
    let sep = if multi_line {
        "\n\t"
    } else {
        " "
    };
    let segments = split_pieces(text, false);
    let mut out = String::new();
    let mut count: usize = 0;
    let ghost mut lines: Seq<Seq<char>> = Seq::empty();
    let mut i: usize = 0;
    assert(views(segments@).take(0) =~= Seq::<Seq<char>>::empty());
    while i < segments.len()
        invariant
            sep@ == separator(multi_line),
            views(segments@) == split_by(text@, false),
            i <= segments.len(),
            count == lines.len(),
            lines.len() == rows_of(views(segments@).take(i as int)).len(),
            count <= i,
            styled ==> forall|j: int|
                0 <= j < lines.len() ==> row_shown(
                    #[trigger] lines[j],
                    rows_of(views(segments@).take(i as int))[j].0,
                    rows_of(views(segments@).take(i as int))[j].1,
                    verdicts(rows_of(views(segments@).take(i as int))[j].1),
                    sep@,
                ),
            !styled ==> forall|j: int|
                0 <= j < lines.len() ==> #[trigger] lines[j] == row_line(
                    rows_of(views(segments@).take(i as int))[j].0,
                    rows_of(views(segments@).take(i as int))[j].1,
                    sep@,
                ),
            out@ == join_lines(lines),
        decreases segments.len() - i,
    {
        let ghost done = views(segments@).take(i as int);
        assert(views(segments@).take(i + 1).drop_last() == done);
        assert(views(segments@).take(i + 1).last() == segments@[i as int]@);
        match Row::from(segments[i].as_str()) {
            Some(row) => {
                assert forall|j: int| 0 <= j < row.values@.len() implies kinds(row.values@)[j]
                    == verdicts(texts(row.values@))[j] by {
                    assert(row.values@[j].well_formed());
                }
                assert(kinds(row.values@) =~= verdicts(texts(row.values@)));
                let line = if styled {
                    row.to_colored_string(sep)
                } else {
                    row.to_plain_string(sep)
                };
                if count > 0 {
                    out.append(";\n");
                }
                out.append(line.as_str());
                proof {
                    let old_lines = lines;
                    lines = lines.push(line@);
                    assert(lines.drop_last() == old_lines);
                }
                count = count + 1;
            },
            None => {},
        }
        i = i + 1;
    }
    assert(views(segments@).take(segments.len() as int) == views(segments@));
    if !styled {
        assert(lines =~= policy_rows(text@).map_values(
            |m: RowModel| row_line(m.0, m.1, separator(multi_line)),
        ));
    }
    out
}

pub proof fn lemma_rows_of_concat(a: Seq<Seq<char>>, b: Seq<Seq<char>>)
    ensures
        rows_of(a + b) == rows_of(a) + rows_of(b),
    decreases b.len(),
{
    if b.len() == 0 {
        assert(a + b =~= a);
        assert(rows_of(a) + rows_of(b) =~= rows_of(a));
    } else {
        lemma_rows_of_concat(a, b.drop_last());
        assert((a + b).drop_last() =~= a + b.drop_last());
        assert((a + b).last() == b.last());
        match row_model(b.last()) {
            Some(m) => {
                assert(rows_of(a) + rows_of(b.drop_last()).push(m) =~= (rows_of(a) + rows_of(
                    b.drop_last(),
                )).push(m));
            },
            None => {},
        }
    }
}

/// A segment of fewer than two words adds nothing: with it between two
/// semicolons the policy holds the same directives as without it.
pub proof fn law_lone_word_adds_nothing(a: Seq<char>, w: Seq<char>, b: Seq<char>)
    requires
        forall|i: int| 0 <= i < w.len() ==> w[i] != ';',
        words(w).len() < 2,
    ensures
        policy_rows(a + seq![';'] + w + seq![';'] + b) == policy_rows(a + seq![';'] + b),
        forall|multi_line: bool|
            plain_rendering(policy_rows(a + seq![';'] + w + seq![';'] + b), separator(multi_line))
                == #[trigger] plain_rendering(policy_rows(a + seq![';'] + b), separator(multi_line)),
{
    let x = a + seq![';'] + w;
    lemma_split_at_semicolon(x, b);
    lemma_split_at_semicolon(a, w);
    lemma_split_at_semicolon(a, b);
    lemma_split_without_semicolon(w);
    let pa = split_by(a, false);
    let pb = split_by(b, false);
    lemma_rows_of_concat(pa + seq![w], pb);
    lemma_rows_of_concat(pa, seq![w]);
    lemma_rows_of_concat(pa, pb);
    assert(seq![w].drop_last() =~= Seq::<Seq<char>>::empty());
    assert(seq![w].last() == w);
    assert(rows_of(Seq::<Seq<char>>::empty()) == Seq::<RowModel>::empty());
    assert(rows_of(seq![w]) =~= Seq::<RowModel>::empty());
    assert(rows_of(pa) + rows_of(seq![w]) =~= rows_of(pa));
}

/// An empty line renders as an empty line, in colour or not.
pub proof fn law_empty_line_renders_empty(r: Seq<char>, multi_line: bool)
    requires
        policy_shown(r, policy_rows(policy_text(Seq::empty())), separator(multi_line)),
    ensures
        r == Seq::<char>::empty(),
        plain_rendering(policy_rows(policy_text(Seq::empty())), separator(multi_line)) == Seq::<
            char,
        >::empty(),
{
    let e = Seq::<char>::empty();
    reveal_strlit("content-security-policy:");
    assert(find_header(e, 0) is None);
    assert(policy_text(e) == e);
    assert(split_by(e, false) =~= seq![e]);
    assert(split_by(e, true) =~= seq![e]);
    assert(seq![e].drop_last() =~= Seq::<Seq<char>>::empty());
    assert(seq![e].last() == e);
    assert(non_empty(Seq::<Seq<char>>::empty()) == Seq::<Seq<char>>::empty());
    assert(rows_of(Seq::<Seq<char>>::empty()) == Seq::<RowModel>::empty());
    assert(non_empty(seq![e]) =~= Seq::<Seq<char>>::empty());
    assert(words(e).len() == 0);
    assert(rows_of(seq![e]) =~= Seq::<RowModel>::empty());
    let lines = choose|lines: Seq<Seq<char>>|
        {
            &&& lines.len() == 0
            &&& r == join_lines(lines)
        };
    assert(policy_rows(e).map_values(|m: RowModel| row_line(m.0, m.1, separator(multi_line)))
        =~= Seq::<Seq<char>>::empty());
}

/// A line that opens with the header name, in any ASCII case, holds the
/// policy that follows it, as written.
pub proof fn law_header_in_any_case(p: Seq<char>, rest: Seq<char>)
    requires
        p.len() == header_name().len(),
        forall|j: int| 0 <= j < p.len() ==> folds_to(#[trigger] p[j], header_name()[j]),
    ensures
        policy_text(p + rest) == rest,
        policy_rows(policy_text(p + rest)) == policy_rows(rest),
{
    let s = p + rest;
    assert forall|j: int| 0 <= j < header_name().len() implies #[trigger] folds_to(
        s[0 + j],
        header_name()[j],
    ) by {
        assert(s[0 + j] == p[j]);
    }
    assert(header_at(s, 0));
    assert(find_header(s, 0) == Some(0int));
    assert(s.skip(p.len() as int) =~= rest);
}

pub open spec fn has_no_space(s: Seq<char>) -> bool {
    forall|j: int| 0 <= j < s.len() ==> s[j] != ' '
}

/// `s` with each space turned into a line break and a tab.
pub open spec fn spaces_to_breaks(s: Seq<char>) -> Seq<char>
    decreases s.len(),
{
    if s.len() == 0 {
        s
    } else if s.last() == ' ' {
        spaces_to_breaks(s.drop_last()) + seq!['\n', '\t']
    } else {
        spaces_to_breaks(s.drop_last()).push(s.last())
    }
}

pub proof fn lemma_breaks_concat(a: Seq<char>, b: Seq<char>)
    ensures
        spaces_to_breaks(a + b) == spaces_to_breaks(a) + spaces_to_breaks(b),
    decreases b.len(),
{
    if b.len() == 0 {
        assert(a + b =~= a);
        assert(spaces_to_breaks(a) + spaces_to_breaks(b) =~= spaces_to_breaks(a));
    } else {
        lemma_breaks_concat(a, b.drop_last());
        assert((a + b).drop_last() =~= a + b.drop_last());
        assert((a + b).last() == b.last());
        let x = spaces_to_breaks(a);
        let y = spaces_to_breaks(b.drop_last());
        assert((x + y) + seq!['\n', '\t'] =~= x + (y + seq!['\n', '\t']));
        assert((x + y).push(b.last()) =~= x + y.push(b.last()));
    }
}

pub proof fn lemma_breaks_keep(s: Seq<char>)
    requires
        has_no_space(s),
    ensures
        spaces_to_breaks(s) == s,
    decreases s.len(),
{
    if s.len() > 0 {
        lemma_breaks_keep(s.drop_last());
        assert(s.drop_last().push(s.last()) =~= s);
    } else {
        assert(s =~= Seq::<char>::empty());
    }
}

pub proof fn lemma_breaks_row(key: Seq<char>, values: Seq<Seq<char>>)
    requires
        has_no_space(key),
        forall|i: int| 0 <= i < values.len() ==> has_no_space(#[trigger] values[i]),
    ensures
        spaces_to_breaks(row_line(key, values, separator(false))) == row_line(
            key,
            values,
            separator(true),
        ),
    decreases values.len(),
{
    reveal_strlit(" ");
    reveal_strlit("\n\t");
    if values.len() == 0 {
        lemma_breaks_keep(key);
    } else {
        let v = values.last();
        assert(has_no_space(values[values.len() - 1]));
        lemma_breaks_row(key, values.drop_last());
        let front = row_line(key, values.drop_last(), separator(false));
        lemma_breaks_concat(front + separator(false), v);
        lemma_breaks_concat(front, separator(false));
        lemma_breaks_keep(v);
        assert(separator(false) =~= seq![' ']);
        assert(separator(false).drop_last() =~= Seq::<char>::empty());
        assert(spaces_to_breaks(Seq::<char>::empty()) == Seq::<char>::empty());
        assert(spaces_to_breaks(separator(false)) =~= separator(true));
    }
}

pub proof fn lemma_breaks_join(lines: Seq<Seq<char>>)
    ensures
        spaces_to_breaks(join_lines(lines)) == join_lines(
            lines.map_values(|l: Seq<char>| spaces_to_breaks(l)),
        ),
    decreases lines.len(),
{
    let m = lines.map_values(|l: Seq<char>| spaces_to_breaks(l));
    if lines.len() == 0 {
        assert(spaces_to_breaks(Seq::<char>::empty()) == Seq::<char>::empty());
    } else if lines.len() == 1 {
    } else {
        reveal_strlit(";\n");
        lemma_breaks_join(lines.drop_last());
        assert(m.drop_last() =~= lines.drop_last().map_values(|l: Seq<char>| spaces_to_breaks(l)));
        let front = join_lines(lines.drop_last());
        lemma_breaks_concat(front + ";\n"@, lines.last());
        lemma_breaks_concat(front, ";\n"@);
        lemma_breaks_keep(";\n"@);
    }
}

pub proof fn lemma_rows_have_no_space(segments: Seq<Seq<char>>)
    ensures
        forall|i: int|
            0 <= i < rows_of(segments).len() ==> has_no_space(#[trigger] rows_of(segments)[i].0)
                && forall|j: int|
                0 <= j < rows_of(segments)[i].1.len() ==> has_no_space(
                    #[trigger] rows_of(segments)[i].1[j],
                ),
    decreases segments.len(),
{
    if segments.len() > 0 {
        lemma_rows_have_no_space(segments.drop_last());
        lemma_words_have_no_space(segments.last());
        let w = words(segments.last());
        let r = rows_of(segments.drop_last());
        if w.len() >= 2 {
            assert(has_no_space(w[0]));
            assert forall|j: int| 0 <= j < w.drop_first().len() implies has_no_space(
                #[trigger] w.drop_first()[j],
            ) by {
                assert(w.drop_first()[j] == w[j + 1]);
                assert forall|k: int| 0 <= k < w[j + 1].len() implies #[trigger] w[j + 1][k] != ' ' by {
                }
            }
            assert(rows_of(segments) == r.push((w[0], w.drop_first())));
            assert forall|i: int| 0 <= i < rows_of(segments).len() implies has_no_space(
                #[trigger] rows_of(segments)[i].0,
            ) && forall|j: int|
                0 <= j < rows_of(segments)[i].1.len() ==> has_no_space(
                    #[trigger] rows_of(segments)[i].1[j],
                ) by {
                if i < r.len() {
                    assert(rows_of(segments)[i] == r[i]);
                }
            }
        } else {
            assert(rows_of(segments) == r);
        }
    }
}

/// Multi-line mode changes the text only where a directive's values are
/// separated: each space becomes a line break and a tab, and the directives
/// are still joined by `;` and a line break.
pub proof fn law_multi_line_only_breaks_spaces(text: Seq<char>)
    ensures
        plain_rendering(policy_rows(text), separator(true)) == spaces_to_breaks(
            plain_rendering(policy_rows(text), separator(false)),
        ),
{
    let rows = policy_rows(text);
    let flat = rows.map_values(|m: RowModel| row_line(m.0, m.1, separator(false)));
    let multi = rows.map_values(|m: RowModel| row_line(m.0, m.1, separator(true)));
    lemma_rows_have_no_space(split_by(text, false));
    lemma_breaks_join(flat);
    let broken = flat.map_values(|l: Seq<char>| spaces_to_breaks(l));
    assert forall|i: int| 0 <= i < rows.len() implies #[trigger] broken[i] == multi[i] by {
        assert(has_no_space(rows[i].0));
        lemma_breaks_row(rows[i].0, rows[i].1);
    }
    assert(broken =~= multi);
}

/// Renders the policy `input` in colour.
pub fn pretty_print(input: &str, multi_line: bool) -> (r: String)
    ensures
        policy_shown(r@, policy_rows(input@), separator(multi_line)),
{
    render(input, multi_line, true)
}

/// Renders one input line: the policy after a leading header name, or the
/// whole line where it has none.
pub fn handle_line_with(input: &str, multi_line: bool, styled: bool) -> (r: String)
    ensures
        styled ==> policy_shown(r@, policy_rows(policy_text(input@)), separator(multi_line)),
        !styled ==> r@ == plain_rendering(
            policy_rows(policy_text(input@)),
            separator(multi_line),
        ),
{
    render(strip_header(input), multi_line, styled)
}

/// Renders one input line in colour.
pub fn handle_line(input: &str, multi_line: bool) -> (r: String)
    ensures
        policy_shown(r@, policy_rows(policy_text(input@)), separator(multi_line)),
{
    handle_line_with(input, multi_line, true)
}

} // verus!
