use vstd::prelude::*;
use vstd::string::*;

use crate::text::{split_words, views, words};
use crate::value::{classification, colored_as, name_code, paint_name, shown, Value, ValueType};

verus! {

/// A directive as written: its name and the texts of its values.
pub type RowModel = (Seq<char>, Seq<Seq<char>>);

/// The directive held by one `;`-separated segment: its first word names it
/// and the others are its values; under two words there is none.
pub open spec fn row_model(segment: Seq<char>) -> Option<RowModel> {
    let w = words(segment);
    if w.len() < 2 {
        None
    } else {
        Some((w[0], w.drop_first()))
    }
}

/// The name, then each value with `sep` before it.
pub open spec fn row_line(key: Seq<char>, values: Seq<Seq<char>>, sep: Seq<char>) -> Seq<char>
    decreases values.len(),
{
    if values.len() == 0 {
        key
    } else {
        row_line(key, values.drop_last(), sep) + sep + values.last()
    }
}

/// `r` is a directive as the colouring may print it: the name in the name
/// style, then each value, with `sep` before it, in the style of its kind.
pub open spec fn row_shown(
    r: Seq<char>,
    key: Seq<char>,
    values: Seq<Seq<char>>,
    kinds: Seq<ValueType>,
    sep: Seq<char>,
) -> bool {
    exists|k: Seq<char>, vs: Seq<Seq<char>>|
        {
            &&& colored_as(k, key, name_code())
            &&& vs.len() == values.len()
            &&& forall|i: int| 0 <= i < vs.len() ==> shown(#[trigger] vs[i], values[i], kinds[i])
            &&& r == row_line(k, vs, sep)
        }
}

/// The verdict on each text.
pub open spec fn verdicts(ts: Seq<Seq<char>>) -> Seq<ValueType> {
    ts.map_values(|t: Seq<char>| classification(t))
}

pub open spec fn kinds(vs: Seq<Value>) -> Seq<ValueType> {
    vs.map_values(|v: Value| v.value_type)
}

pub open spec fn texts(vs: Seq<Value>) -> Seq<Seq<char>> {
    vs.map_values(|v: Value| v.text@)
}

/// One directive: its name and its classified values.
pub struct Row {
    pub key: String,
    pub values: Vec<Value>,
}

impl Row {
    pub open spec fn model(&self) -> RowModel {
        (self.key@, texts(self.values@))
    }

    pub open spec fn well_formed(&self) -> bool {
        &&& self.values@.len() >= 1
        &&& forall|i: int| 0 <= i < self.values@.len() ==> #[trigger] self.values@[i].well_formed()
    }

    /// Reads one segment; `None` where it holds fewer than two words.
    pub fn from(line: &str) -> (r: Option<Row>)
        ensures
            r is None <==> row_model(line@) is None,
            r matches Some(row) ==> row_model(line@) == Some(row.model()) && row.well_formed(),
    {
        let parts = split_words(line);
        if parts.len() < 2 {
            return None;
        }
        let key = parts[0].clone();
        let mut values: Vec<Value> = Vec::new();
        let mut i: usize = 1;
        while i < parts.len()
            invariant
                views(parts@) == words(line@),
                1 <= i <= parts.len(),
                values@.len() == i - 1,
                forall|j: int| 0 <= j < values@.len() ==> #[trigger] values@[j].well_formed(),
                texts(values@) == views(parts@).subrange(1, i as int),
            decreases parts.len() - i,
        {
            let v = Value::from(parts[i].as_str());
            let ghost before = values@;
            values.push(v);
            assert(texts(values@) == texts(before).push(v.text@));
            assert(views(parts@).subrange(1, i + 1) == views(parts@).subrange(1, i as int).push(
                parts@[i as int]@,
            ));
            i = i + 1;
        }
        let row = Row { key, values };
        assert(views(parts@).subrange(1, parts.len() as int) == views(parts@).drop_first());
        assert(views(parts@)[0] == parts@[0]@);
        Some(row)
    }

    /// The directive with its styling switched off: the name, then each value
    /// with `separator` before it.
    pub fn to_plain_string(&self, separator: &str) -> (r: String)
        ensures
            r@ == row_line(self.key@, texts(self.values@), separator@),
    {
        let mut out = String::from_str(self.key.as_str());
        let mut i: usize = 0;
        while i < self.values.len()
            invariant
                i <= self.values@.len(),
                out@ == row_line(self.key@, texts(self.values@).take(i as int), separator@),
            decreases self.values@.len() - i,
        {
            out.append(separator);
            out.append(self.values[i].text.as_str());
            assert(texts(self.values@).take(i + 1).drop_last() == texts(self.values@).take(i as int));
            i = i + 1;
        }
        assert(texts(self.values@).take(self.values@.len() as int) == texts(self.values@));
        out
    }

    /// The directive in colour: the name, then each value with `separator`
    /// before it.
    pub fn to_colored_string(&self, separator: &str) -> (r: String)
        ensures
            row_shown(r@, self.key@, texts(self.values@), kinds(self.values@), separator@),
    {
        let mut out = paint_name(self.key.as_str());
        let ghost k = out@;
        let ghost mut vs: Seq<Seq<char>> = Seq::empty();
        let mut i: usize = 0;
        while i < self.values.len()
            invariant
                i <= self.values@.len(),
                colored_as(k, self.key@, name_code()),
                vs.len() == i,
                forall|j: int|
                    0 <= j < i ==> shown(
                        #[trigger] vs[j],
                        texts(self.values@)[j],
                        kinds(self.values@)[j],
                    ),
                out@ == row_line(k, vs, separator@),
            decreases self.values@.len() - i,
        {
            let piece = self.values[i].pretty();
            out.append(separator);
            out.append(piece.as_str());
            proof {
                let old_vs = vs;
                vs = vs.push(piece@);
                assert(vs.drop_last() == old_vs);
            }
            i = i + 1;
        }
        assert(vs.len() == texts(self.values@).len());
        out
    }
}

} // verus!
