use vstd::prelude::*;
use vstd::string::*;

verus! {

/// Whether `c` has Unicode's White_Space property: tab to carriage return,
/// space, next line, no-break space, Ogham space mark, en quad to hair space,
/// line and paragraph separator, narrow no-break space, medium mathematical
/// space and ideographic space.
pub open spec fn is_space(c: char) -> bool {
    let u = c as u32;
    ||| 0x09 <= u <= 0x0D
    ||| u == 0x20
    ||| u == 0x85
    ||| u == 0xA0
    ||| u == 0x1680
    ||| 0x2000 <= u <= 0x200A
    ||| u == 0x2028
    ||| u == 0x2029
    ||| u == 0x202F
    ||| u == 0x205F
    ||| u == 0x3000
}

/// Relies on `char::is_whitespace`: true exactly for the characters with
/// Unicode's White_Space property.
#[verifier::external_body]
fn char_is_space(c: char) -> (r: bool)
    ensures
        r == is_space(c),
{
    c.is_whitespace()
}

/// Compares two strings character by character.
pub fn same_text(a: &str, b: &str) -> (r: bool)
    ensures
        r == (a@ == b@),
{
    let n = a.unicode_len();
    if n != b.unicode_len() {
        return false;
    }
    let mut i: usize = 0;
    while i < n
        invariant
            n == a@.len(),
            n == b@.len(),
            i <= n,
            a@.take(i as int) == b@.take(i as int),
        decreases n - i,
    {
        if a.get_char(i) != b.get_char(i) {
            return false;
        }
        assert(a@.take(i + 1) == a@.take(i as int).push(a@[i as int]));
        assert(b@.take(i + 1) == b@.take(i as int).push(b@[i as int]));
        i = i + 1;
    }
    assert(a@ == a@.take(n as int));
    assert(b@ == b@.take(n as int));
    true
}

/// The separator that cuts a text into pieces: any white space, or `;`.
pub open spec fn is_separator(c: char, on_space: bool) -> bool {
    if on_space {
        is_space(c)
    } else {
        c == ';'
    }
}

/// The pieces between separators, empty ones included: a text with `k`
/// separators has `k + 1` pieces.
pub open spec fn split_by(s: Seq<char>, on_space: bool) -> Seq<Seq<char>>
    decreases s.len(),
{
    if s.len() == 0 {
        seq![Seq::empty()]
    } else {
        let p = split_by(s.drop_last(), on_space);
        if is_separator(s.last(), on_space) {
            p.push(Seq::empty())
        } else {
            p.update(p.len() - 1, p.last().push(s.last()))
        }
    }
}

pub proof fn lemma_split_by_not_empty(s: Seq<char>, on_space: bool)
    ensures
        split_by(s, on_space).len() >= 1,
    decreases s.len(),
{
    if s.len() > 0 {
        lemma_split_by_not_empty(s.drop_last(), on_space);
    }
}

/// Cutting at a `;` puts the pieces before it and those after it side by side.
pub proof fn lemma_split_at_semicolon(x: Seq<char>, b: Seq<char>)
    ensures
        split_by(x + seq![';'] + b, false) == split_by(x, false) + split_by(b, false),
    decreases b.len(),
{
    let s = x + seq![';'] + b;
    if b.len() == 0 {
        assert(s.drop_last() == x);
        assert(split_by(b, false) =~= seq![Seq::<char>::empty()]);
        assert(split_by(s, false) =~= split_by(x, false) + split_by(b, false));
    } else {
        let b0 = b.drop_last();
        lemma_split_at_semicolon(x, b0);
        lemma_split_by_not_empty(b0, false);
        assert(s.drop_last() == x + seq![';'] + b0);
        assert(s.last() == b.last());
        let p = split_by(x, false);
        let q = split_by(b0, false);
        if is_separator(b.last(), false) {
            assert((p + q).push(Seq::empty()) =~= p + q.push(Seq::empty()));
        } else {
            assert((p + q).update((p + q).len() - 1, (p + q).last().push(b.last())) =~= p + q.update(
                q.len() - 1,
                q.last().push(b.last()),
            ));
        }
    }
}

/// A text without `;` is a single piece.
pub proof fn lemma_split_without_semicolon(w: Seq<char>)
    requires
        forall|i: int| 0 <= i < w.len() ==> w[i] != ';',
    ensures
        split_by(w, false) == seq![w],
    decreases w.len(),
{
    if w.len() == 0 {
        assert(w =~= Seq::<char>::empty());
        assert(split_by(w, false) =~= seq![w]);
    } else {
        lemma_split_without_semicolon(w.drop_last());
        assert(w.drop_last().push(w.last()) =~= w);
        assert(w[w.len() - 1] != ';');
        assert(!is_separator(w.last(), false));
        let p = seq![w.drop_last()];
        assert(p.update(p.len() - 1, p.last().push(w.last())) =~= seq![w]);
        assert(split_by(w, false) =~= seq![w]);
    }
}

/// No piece cut at white space holds a space.
pub proof fn lemma_split_on_space_has_no_space(s: Seq<char>)
    ensures
        forall|i: int, j: int|
            0 <= i < split_by(s, true).len() && 0 <= j < split_by(s, true)[i].len()
                ==> #[trigger] split_by(s, true)[i][j] != ' ',
    decreases s.len(),
{
    if s.len() > 0 {
        lemma_split_on_space_has_no_space(s.drop_last());
        lemma_split_by_not_empty(s.drop_last(), true);
        let p = split_by(s.drop_last(), true);
        if !is_separator(s.last(), true) {
            assert((' ' as u32) == 0x20);
            assert(s.last() != ' ');
            let q = p.update(p.len() - 1, p.last().push(s.last()));
            assert forall|i: int, j: int| 0 <= i < q.len() && 0 <= j < q[i].len() implies #[trigger] q[i][j]
                != ' ' by {
                if i == p.len() - 1 && j == p.last().len() {
                } else {
                    assert(q[i][j] == p[i][j]);
                }
            }
        }
    }
}

/// Every word is one of the pieces.
pub proof fn lemma_non_empty_from(ps: Seq<Seq<char>>)
    ensures
        forall|i: int|
            0 <= i < non_empty(ps).len() ==> exists|k: int| 0 <= k < ps.len() && #[trigger] non_empty(ps)[i] == ps[k],
    decreases ps.len(),
{
    if ps.len() > 0 {
        lemma_non_empty_from(ps.drop_last());
        let r = non_empty(ps.drop_last());
        assert forall|i: int| 0 <= i < non_empty(ps).len() implies exists|k: int|
            0 <= k < ps.len() && #[trigger] non_empty(ps)[i] == ps[k] by {
            if i < r.len() {
                let k = choose|k: int| 0 <= k < ps.drop_last().len() && r[i] == ps.drop_last()[k];
                assert(non_empty(ps)[i] == ps[k]);
            } else {
                assert(non_empty(ps)[i] == ps[ps.len() - 1]);
            }
        }
    }
}

/// No word holds a space.
pub proof fn lemma_words_have_no_space(s: Seq<char>)
    ensures
        forall|i: int, j: int|
            0 <= i < words(s).len() && 0 <= j < words(s)[i].len() ==> #[trigger] words(s)[i][j] != ' ',
{
    lemma_split_on_space_has_no_space(s);
    lemma_non_empty_from(split_by(s, true));
    assert forall|i: int, j: int| 0 <= i < words(s).len() && 0 <= j < words(s)[i].len() implies #[trigger] words(
        s,
    )[i][j] != ' ' by {
        let k = choose|k: int| 0 <= k < split_by(s, true).len() && words(s)[i] == split_by(s, true)[k];
        assert(split_by(s, true)[k][j] != ' ');
    }
}

/// The pieces that hold at least one character, in order.
pub open spec fn non_empty(ps: Seq<Seq<char>>) -> Seq<Seq<char>>
    decreases ps.len(),
{
    if ps.len() == 0 {
        Seq::empty()
    } else {
        let r = non_empty(ps.drop_last());
        if ps.last().len() > 0 {
            r.push(ps.last())
        } else {
            r
        }
    }
}

/// The white-space separated words of `s`.
pub open spec fn words(s: Seq<char>) -> Seq<Seq<char>> {
    non_empty(split_by(s, true))
}

pub open spec fn views(v: Seq<String>) -> Seq<Seq<char>> {
    v.map_values(|x: String| x@)
}

fn separates(c: char, on_space: bool) -> (r: bool)
    ensures
        r == is_separator(c, on_space),
{
    if on_space {
        char_is_space(c)
    } else {
        c == ';'
    }
}

/// Cuts `s` at every separator.
pub fn split_pieces(s: &str, on_space: bool) -> (r: Vec<String>)
    ensures
        views(r@) == split_by(s@, on_space),
{
    let n = s.unicode_len();
    let mut pieces: Vec<String> = Vec::new();
    let mut start: usize = 0;
    let mut i: usize = 0;
    assert(s@.take(0) == Seq::<char>::empty());
    assert(views(pieces@).push(s@.subrange(0, 0)) =~= split_by(s@.take(0), on_space));
    while i < n
        invariant
            n == s@.len(),
            start <= i <= n,
            views(pieces@).push(s@.subrange(start as int, i as int)) == split_by(
                s@.take(i as int),
                on_space,
            ),
        decreases n - i,
    {
        let c = s.get_char(i);
        let ghost prefix = s@.take(i + 1);
        assert(prefix.drop_last() == s@.take(i as int));
        assert(prefix.last() == c);
        proof {
            lemma_split_by_not_empty(s@.take(i as int), on_space);
        }
        let ghost before = pieces@;
        if separates(c, on_space) {
            let piece = String::from_str(s.substring_char(start, i));
            pieces.push(piece);
            start = i + 1;
            assert(views(pieces@) == views(before).push(piece@));
            assert(s@.subrange(start as int, i + 1) == Seq::<char>::empty());
        } else {
            assert(s@.subrange(start as int, i + 1) == s@.subrange(start as int, i as int).push(c));
        }
        i = i + 1;
    }
    let last = String::from_str(s.substring_char(start, n));
    let ghost before = pieces@;
    pieces.push(last);
    assert(views(pieces@) == views(before).push(last@));
    assert(s@.take(n as int) == s@);
    pieces
}

/// The white-space separated words of `s`, in order.
pub fn split_words(s: &str) -> (r: Vec<String>)
    ensures
        views(r@) == words(s@),
{
    let pieces = split_pieces(s, true);
    let mut out: Vec<String> = Vec::new();
    let mut i: usize = 0;
    assert(pieces@.take(0) == Seq::<String>::empty());
    assert(views(out@) =~= non_empty(views(pieces@.take(0))));
    while i < pieces.len()
        invariant
            views(pieces@) == split_by(s@, true),
            i <= pieces.len(),
            views(out@) == non_empty(views(pieces@.take(i as int))),
        decreases pieces.len() - i,
    {
        let ghost before = out@;
        assert(views(pieces@.take(i + 1)).drop_last() == views(pieces@.take(i as int)));
        assert(views(pieces@.take(i + 1)).last() == pieces@[i as int]@);
        if pieces[i].unicode_len() > 0 {
            out.push(pieces[i].clone());
            assert(views(out@) == views(before).push(pieces@[i as int]@));
        }
        i = i + 1;
    }
    assert(pieces@.take(pieces.len() as int) == pieces@);
    out
}

/// The header name that may open a line, in lower case.
pub open spec fn header_name() -> Seq<char> {
    "content-security-policy:"@
}

/// `c` equals the lower-case character `p` once ASCII upper case is lowered.
pub open spec fn folds_to(c: char, p: char) -> bool {
    c == p || ('A' <= c && c <= 'Z' && c as u32 + 32 == p as u32)
}

/// The header name starts at position `at` of `s`, in any ASCII case.
pub open spec fn header_at(s: Seq<char>, at: int) -> bool {
    &&& 0 <= at
    &&& at + header_name().len() <= s.len()
    &&& forall|j: int|
        0 <= j < header_name().len() ==> #[trigger] folds_to(s[at + j], header_name()[j])
}

/// The first position at or after `from` where the header name starts.
pub open spec fn find_header(s: Seq<char>, from: int) -> Option<int>
    decreases s.len() - from,
{
    if from < 0 || from + header_name().len() > s.len() {
        None
    } else if header_at(s, from) {
        Some(from)
    } else {
        find_header(s, from + 1)
    }
}

/// The policy held by a line: what follows the first header name, or the
/// whole line where there is none.
pub open spec fn policy_text(s: Seq<char>) -> Seq<char> {
    match find_header(s, 0) {
        Some(at) => s.skip(at + header_name().len()),
        None => s,
    }
}

fn folds_to_exec(c: char, p: char) -> (r: bool)
    ensures
        r == folds_to(c, p),
{
    c == p || ('A' <= c && c <= 'Z' && c as u32 + 32 == p as u32)
}

fn header_at_exec(s: &str, n: usize, at: usize) -> (r: bool)
    requires
        n == s@.len(),
        at + header_name().len() <= n,
    ensures
        r == header_at(s@, at as int),
{
    let name = "content-security-policy:";
    proof {
        reveal_strlit("content-security-policy:");
    }
    let mut j: usize = 0;
    while j < 24
        invariant
            n == s@.len(),
            header_name().len() == 24,
            name@ == header_name(),
            at + 24 <= n,
            j <= 24,
            forall|k: int| 0 <= k < j ==> #[trigger] folds_to(s@[at + k], header_name()[k]),
        decreases 24 - j,
    {
        if !folds_to_exec(s.get_char(at + j), name.get_char(j)) {
            return false;
        }
        j = j + 1;
    }
    true
}

/// Drops everything up to and including the first header name, matched
/// without regard to ASCII case; a line without it is kept whole. Lowering
/// the whole line first would find the same place: outside ASCII only the
/// Kelvin sign and the dotted capital I lower to ASCII letters, to `k` and to
/// `i` with a combining dot after it, and neither fits in the name. The text
/// kept has the case it was written in.
pub fn strip_header(line: &str) -> (r: &str)
    ensures
        r@ == policy_text(line@),
{
    proof {
        reveal_strlit("content-security-policy:");
    }
    let n = line.unicode_len();
    if n < 24 {
        return line;
    }
    let mut at: usize = 0;
    while at <= n - 24
        invariant
            n == line@.len(),
            24 <= n,
            header_name().len() == 24,
            at <= n - 23,
            find_header(line@, 0) == find_header(line@, at as int),
        decreases n - 23 - at,
    {
        if header_at_exec(line, n, at) {
            return line.substring_char(at + 24, n);
        }
        at = at + 1;
    }
    line
}

} // verus!
