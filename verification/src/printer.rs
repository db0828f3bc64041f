//! Writing the lines of a document, all at once or one at a time.
use vstd::prelude::*;

use crate::json_text::json_quote;
use crate::lines::{
    entry_keys, entry_order, first_field_letter, flat, flat_all, flattened, following_field_letter,
    index_segment, key_segment, lemma_entry_order, lemma_flat_all_concat, lemma_flat_all_cons,
    lemma_flat_all_single, lemma_flat_unfold, lemma_flatten_concat, children, line_spans, plain,
    root_prefix, spans_view, valid_field, value_spans, SpanView, all_ascii, ascii_digit,
    ascii_identifier, ascii_letter,
};
use crate::order::{as_ints, key_views, sorted_order};
use crate::text::{chars_of, decimal_string};
use crate::unicode::{
    is_letter_lowercase, is_letter_modifier, is_letter_other, is_letter_uppercase,
    is_mark_nonspacing, is_mark_spacing_combining, is_number_decimal_digit, is_number_letter,
    is_punctuation_connector,
};
use crate::value::JsonValue;

pub use crate::lines::{Span, Style};

verus! {

/// A span holding a copy of `text`.
fn span(text: &str, style: Style) -> (r: Span)
    ensures
        r@ == (text@, style),
{
    Span { text: String::from_str(text), style }
}

/// A copy of a span.
fn copy_span(s: &Span) -> (r: Span)
    ensures
        r@ == s@,
{
    Span { text: s.text.clone(), style: s.style }
}

/// `prefix` followed by `segment`, as a new sequence of spans.
fn extended(prefix: &Vec<Span>, segment: Vec<Span>) -> (r: Vec<Span>)
    ensures
        spans_view(r@) == spans_view(prefix@) + spans_view(segment@),
{
    let mut r: Vec<Span> = Vec::new();
    let mut i: usize = 0;
    while i < prefix.len()
        invariant
            i <= prefix@.len(),
            spans_view(r@) == spans_view(prefix@).take(i as int),
        decreases prefix@.len() - i,
    {
        r.push(copy_span(&prefix[i]));
        assert(spans_view(prefix@).take(i + 1) =~= spans_view(prefix@).take(i as int).push(prefix@[i as int]@));
        assert(spans_view(r@) =~= spans_view(prefix@).take(i as int).push(prefix@[i as int]@));
        i = i + 1;
    }
    assert(spans_view(prefix@).take(prefix@.len() as int) =~= spans_view(prefix@));
    let ghost before = spans_view(r@);
    let mut segment = segment;
    let ghost seg = spans_view(segment@);
    let mut j: usize = 0;
    let n = segment.len();
    while j < n
        invariant
            n == segment@.len(),
            seg == spans_view(segment@),
            j <= n,
            spans_view(r@) == before + seg.take(j as int),
        decreases n - j,
    {
        let ghost old_r = r@;
        r.push(copy_span(&segment[j]));
        assert(spans_view(r@) =~= spans_view(old_r).push(seg[j as int]));
        assert(seg.take(j + 1) =~= seg.take(j as int).push(seg[j as int]));
        assert(spans_view(r@) =~= before + seg.take(j + 1));
        j = j + 1;
    }
    assert(seg.take(n as int) =~= seg);
    r
}

/// The segment `[i]`.
fn index_segment_spans(i: usize) -> (r: Vec<Span>)
    ensures
        spans_view(r@) == index_segment(i as nat),
{
    let mut r: Vec<Span> = Vec::new();
    r.push(span("[", Style::Brace));
    r.push(Span { text: decimal_string(i), style: Style::Number });
    r.push(span("]", Style::Brace));
    assert(spans_view(r@) =~= index_segment(i as nat));
    r
}

/// The right-hand side of the line written for `v`.
fn value_spans_of(v: &JsonValue) -> (r: Vec<Span>)
    ensures
        spans_view(r@) == value_spans(*v),
{
    let mut r: Vec<Span> = Vec::new();
    match v {
        JsonValue::Null => r.push(span("null", Style::Null)),
        JsonValue::Bool(b) => {
            if *b {
                r.push(span("true", Style::Bool));
            } else {
                r.push(span("false", Style::Bool));
            }
        },
        JsonValue::Number(text) => r.push(Span { text: text.clone(), style: Style::Number }),
        JsonValue::String(s) => r.push(Span { text: json_quote(s.as_str()), style: Style::String }),
        JsonValue::Array(_) => {
            r.push(span("[", Style::Brace));
            r.push(span("]", Style::Brace));
        },
        JsonValue::Object(_) => r.push(span("{}", Style::Brace)),
    }
    assert(spans_view(r@) =~= value_spans(*v));
    r
}

/// The line `prefix = value;` with its newline.
fn line_of(prefix: Vec<Span>, v: &JsonValue) -> (r: Vec<Span>)
    ensures
        spans_view(r@) == line_spans(spans_view(prefix@), *v),
{
    let mut r = prefix;
    let ghost p = spans_view(r@);
    let ghost old_r = r@;
    r.push(span(" = ", Style::Plain));
    assert(spans_view(r@) =~= p.push((" = "@, Style::Plain)));
    let rhs = value_spans_of(v);
    let ghost mid = spans_view(r@);
    let mut i: usize = 0;
    while i < rhs.len()
        invariant
            i <= rhs@.len(),
            spans_view(r@) == mid + spans_view(rhs@).take(i as int),
        decreases rhs@.len() - i,
    {
        let ghost old_r = r@;
        r.push(copy_span(&rhs[i]));
        assert(spans_view(r@) =~= spans_view(old_r).push(rhs@[i as int]@));
        assert(spans_view(rhs@).take(i + 1) =~= spans_view(rhs@).take(i as int).push(rhs@[i as int]@));
        assert(spans_view(r@) =~= mid + spans_view(rhs@).take(i + 1));
        i = i + 1;
    }
    assert(spans_view(rhs@).take(rhs@.len() as int) =~= spans_view(rhs@));
    let ghost old_r = r@;
    r.push(span(";\n", Style::Plain));
    assert(spans_view(r@) =~= spans_view(old_r).push((";\n"@, Style::Plain)));
    assert(spans_view(r@) =~= line_spans(p, *v));
    r
}

/// The order in which the entries of an object are written.
fn entry_order_of(entries: &Vec<(String, JsonValue)>, sort: bool) -> (r: Vec<usize>)
    ensures
        as_ints(r@) == entry_order(entries@, sort),
{
    let n = entries.len();
    if sort {
        let mut keys: Vec<Vec<char>> = Vec::new();
        let mut i: usize = 0;
        while i < n
            invariant
                n == entries@.len(),
                i <= n,
                key_views(keys@) == entry_keys(entries@).take(i as int),
            decreases n - i,
        {
            let k = chars_of(entries[i].0.as_str());
            let ghost old_keys = keys@;
            keys.push(k);
            assert(key_views(keys@) =~= key_views(old_keys).push(entries@[i as int].0@));
            assert(key_views(keys@) =~= entry_keys(entries@).take(i + 1));
            i = i + 1;
        }
        assert(entry_keys(entries@).take(n as int) =~= entry_keys(entries@));
        sorted_order(&keys)
    } else {
        let mut r: Vec<usize> = Vec::new();
        let mut i: usize = 0;
        while i < n
            invariant
                n == entries@.len(),
                i <= n,
                as_ints(r@) == Seq::new(i as nat, |j: int| j),
            decreases n - i,
        {
            let ghost old_r = r@;
            r.push(i);
            assert(as_ints(r@) =~= as_ints(old_r).push(i as int));
            assert(as_ints(r@) =~= Seq::new((i + 1) as nat, |j: int| j));
            i = i + 1;
        }
        r
    }
}

/// Writes the lines of serialized data, one assignment per value.
#[derive(Debug, Clone, Copy)]
pub struct Printer {
    sort: bool,
}

impl Printer {
    /// Whether object keys are written in sorted order.
    pub closed spec fn sorts(&self) -> bool {
        self.sort
    }

    /// A printer that sorts object keys when `sort` is set.
    pub fn new(sort: bool) -> (r: Self)
        ensures
            r.sorts() == sort,
    {
        Self { sort }
    }

    /// Whether `letter` may start a field name in dot notation: a letter of
    /// category Ll, Lm, Lo, Lu or Nl, or `$`, or `_`.
    pub fn valid_first_field_letter(&self, letter: char) -> (r: bool)
        ensures
            r == first_field_letter(letter),
            (letter as int) < 0x80 ==> (r <==> ascii_letter(letter) || letter == '$' || letter == '_'),
    {
        is_letter_lowercase(letter) || is_letter_modifier(letter) || is_letter_other(letter)
            || is_letter_uppercase(letter) || is_number_letter(letter) || letter == '$'
            || letter == '_'
    }

    /// Whether `letter` may follow the first letter of a field name in dot
    /// notation: a first letter, or a char of category Mn, Mc, Nd or Pc.
    pub fn valid_following_field_letter(&self, letter: char) -> (r: bool)
        ensures
            r == following_field_letter(letter),
            (letter as int) < 0x80 ==> (r <==> ascii_letter(letter) || ascii_digit(letter) || letter == '$'
                || letter == '_'),
    {
        self.valid_first_field_letter(letter) || is_mark_nonspacing(letter)
            || is_mark_spacing_combining(letter) || is_number_decimal_digit(letter)
            || is_punctuation_connector(letter)
    }

    /// Whether `field_name` is written as `.field_name` rather than in brackets.
    pub fn valid_field_name(&self, field_name: &str) -> (r: bool)
        ensures
            r == valid_field(field_name@),
            all_ascii(field_name@) ==> (r <==> ascii_identifier(field_name@)),
    {
        let letters = chars_of(field_name);
        if letters.len() == 0 {
            return false;
        }
        if !self.valid_first_field_letter(letters[0]) {
            return false;
        }
        let mut i: usize = 1;
        while i < letters.len()
            invariant
                letters@ == field_name@,
                1 <= i <= letters@.len(),
                forall|j: int| 1 <= j < i ==> following_field_letter(#[trigger] letters@[j]),
                all_ascii(field_name@) ==> (ascii_letter(letters@[0]) || letters@[0] == '$' || letters@[0] == '_'),
                all_ascii(field_name@) ==> forall|j: int|
                    1 <= j < i ==> ascii_letter(#[trigger] letters@[j]) || ascii_digit(letters@[j])
                        || letters@[j] == '$' || letters@[j] == '_',
            decreases letters@.len() - i,
        {
            if !self.valid_following_field_letter(letters[i]) {
                return false;
            }
            i = i + 1;
        }
        true
    }

    /// The path segment written for object key `key`.
    fn key_segment_spans(&self, key: &String) -> (r: Vec<Span>)
        ensures
            spans_view(r@) == key_segment(key@),
    {
        let mut r: Vec<Span> = Vec::new();
        if self.valid_field_name(key.as_str()) {
            r.push(span(".", Style::Plain));
            r.push(Span { text: key.clone(), style: Style::Field });
        } else {
            r.push(span("[", Style::Brace));
            r.push(Span { text: json_quote(key.as_str()), style: Style::String });
            r.push(span("]", Style::Brace));
        }
        assert(spans_view(r@) =~= key_segment(key@));
        r
    }
}

/// The (path, value) pairs still to be written, first to be written first.
pub open spec fn work_view<'a>(stack: Seq<(Vec<Span>, &'a JsonValue)>) -> Seq<(Seq<SpanView>, JsonValue)> {
    stack.map_values(|e: (Vec<Span>, &'a JsonValue)| (spans_view(e.0@), *e.1)).reverse()
}

/// Writing the lines of a document one at a time, without recursion: a
/// stack of the values still to be written, each with its path.
pub struct Flattener<'a> {
    printer: Printer,
    stack: Vec<(Vec<Span>, &'a JsonValue)>,
}

impl<'a> Flattener<'a> {
    /// Whether object keys are written in sorted order.
    pub closed spec fn sorts(&self) -> bool {
        self.printer.sorts()
    }

    /// The lines that are still to come, in order.
    pub closed spec fn pending(&self) -> Seq<Seq<SpanView>> {
        flat_all(work_view(self.stack@), self.printer.sorts())
    }

    /// The next line, or `None` when every line has been written.
    pub fn next_line(&mut self) -> (r: Option<Vec<Span>>)
        ensures
            final(self).sorts() == old(self).sorts(),
            old(self).pending().len() == 0 ==> r is None && final(self).pending() == old(self).pending(),
            old(self).pending().len() > 0 ==> (r matches Some(line) && spans_view(line@) == old(
                self,
            ).pending()[0] && final(self).pending() == old(self).pending().drop_first()),
    {
        let ghost sort = self.printer.sorts();
        let ghost old_stack = self.stack@;
        match self.stack.pop() {
            None => {
                assert(work_view(old_stack) =~= Seq::empty());
                assert(Seq::new(0, |i: int| flat(work_view(old_stack)[i].0, work_view(old_stack)[i].1, sort)) =~= Seq::empty());
                None
            },
            Some(top) => {
                let (prefix, value) = top;
                let ghost rest = self.stack@;
                let ghost wt = (spans_view(prefix@), *value);
                let ghost ch = children(spans_view(prefix@), *value, sort);
                proof {
                    assert(old_stack =~= rest.push(top));
                    assert(work_view(old_stack) =~= seq![wt] + work_view(rest));
                    lemma_flat_all_cons(wt, work_view(rest), sort);
                    lemma_flat_unfold(spans_view(prefix@), *value, sort);
                }
                match value {
                    JsonValue::Array(items) => {
                        let n = items.len();
                        let mut i: usize = n;
                        while i > 0
                            invariant
                                n == items@.len(),
                                i <= n,
                                self.printer.sorts() == sort,
                                ch == children(spans_view(prefix@), *value, sort),
                                *value == JsonValue::Array(*items),
                                work_view(self.stack@) == ch.subrange(i as int, n as int) + work_view(rest),
                            decreases i,
                        {
                            i = i - 1;
                            let p = extended(&prefix, index_segment_spans(i));
                            let ghost before = self.stack@;
                            self.stack.push((p, &items[i]));
                            proof {
                                assert(ch[i as int] == (spans_view(prefix@) + index_segment(i as nat), items@[i as int]));
                                assert(ch.subrange(i as int, n as int) =~= seq![ch[i as int]] + ch.subrange(i + 1, n as int));
                                assert(work_view(self.stack@) =~= seq![ch[i as int]] + work_view(before));
                            }
                        }
                        assert(ch.subrange(0, n as int) =~= ch);
                    },
                    JsonValue::Object(entries) => {
                        let ord = entry_order_of(entries, self.printer.sort);
                        proof {
                            lemma_entry_order(entries@, sort);
                            assert forall|j: int| 0 <= j < ord@.len() implies #[trigger] ord@[j] < ord@.len() by {
                                assert(as_ints(ord@)[j] == ord@[j] as int);
                            }
                        }
                        let n = ord.len();
                        let mut i: usize = n;
                        while i > 0
                            invariant
                                n == ord@.len(),
                                n == entries@.len(),
                                as_ints(ord@) == entry_order(entries@, sort),
                                forall|j: int| 0 <= j < n ==> #[trigger] ord@[j] < n,
                                i <= n,
                                self.printer.sorts() == sort,
                                ch == children(spans_view(prefix@), *value, sort),
                                *value == JsonValue::Object(*entries),
                                work_view(self.stack@) == ch.subrange(i as int, n as int) + work_view(rest),
                            decreases i,
                        {
                            i = i - 1;
                            let k = ord[i];
                            assert(as_ints(ord@)[i as int] == k as int);
                            let p = extended(&prefix, self.printer.key_segment_spans(&entries[k].0));
                            let ghost before = self.stack@;
                            self.stack.push((p, &entries[k].1));
                            proof {
                                assert(ch[i as int] == (
                                    spans_view(prefix@) + key_segment(entries@[k as int].0@),
                                    entries@[k as int].1,
                                ));
                                assert(ch.subrange(i as int, n as int) =~= seq![ch[i as int]] + ch.subrange(i + 1, n as int));
                                assert(work_view(self.stack@) =~= seq![ch[i as int]] + work_view(before));
                            }
                        }
                        assert(ch.subrange(0, n as int) =~= ch);
                    },
                    _ => {
                        assert(ch =~= Seq::empty());
                    },
                }
                proof {
                    lemma_flat_all_concat(ch, work_view(rest), sort);
                }
                let line = line_of(prefix, value);
                Some(line)
            },
        }
    }
}

impl Printer {
    /// The lines of `value`, to be taken one at a time.
    pub fn lines<'a>(&self, value: &'a JsonValue) -> (r: Flattener<'a>)
        ensures
            r.sorts() == self.sorts(),
            r.pending() == flattened(*value, self.sorts()),
    {
        let mut stack: Vec<(Vec<Span>, &'a JsonValue)> = Vec::new();
        let mut root: Vec<Span> = Vec::new();
        root.push(span("json", Style::Field));
        assert(spans_view(root@) =~= root_prefix());
        stack.push((root, value));
        let r = Flattener { printer: *self, stack };
        proof {
            let w = (root_prefix(), *value);
            assert(work_view(r.stack@) =~= seq![w]);
            lemma_flat_all_single(w, self.sort);
        }
        r
    }

    /// Writes the lines of `value` to `writer`, one `path = value;` line per
    /// value of the document, in document order.
    pub fn print(&self, writer: &mut Vec<Span>, value: &JsonValue)
        ensures
            spans_view(final(writer)@) == spans_view(old(writer)@) + flattened(*value, self.sorts()).flatten(),
    {
        let ghost all = flattened(*value, self.sorts());
        let ghost start = spans_view(writer@);
        let mut lines = self.lines(value);
        let ghost mut k: int = 0;
        loop
            invariant
                0 <= k <= all.len(),
                lines.pending() == all.skip(k),
                spans_view(writer@) == start + all.take(k).flatten(),
            ensures
                spans_view(writer@) == start + all.flatten(),
            decreases lines.pending().len(),
        {
            match lines.next_line() {
                None => {
                    assert(all.take(k) =~= all);
                    break;
                },
                Some(line) => {
                    let mut line = line;
                    let ghost before = writer@;
                    let ghost l = spans_view(line@);
                    assert(l == all[k]);
                    writer.append(&mut line);
                    proof {
                        assert(spans_view(writer@) =~= spans_view(before) + l);
                        assert(all.take(k + 1) =~= all.take(k) + seq![l]);
                        lemma_flatten_concat(all.take(k), seq![l]);
                        seq![l].lemma_flatten_one_element();
                        assert(all.skip(k).drop_first() =~= all.skip(k + 1));
                        k = k + 1;
                    }
                },
            }
        }
    }
}

/// The text of `spans`, without highlighting.
pub fn plain_text(spans: &Vec<Span>) -> (r: String)
    ensures
        r@ == plain(spans_view(spans@)),
{
    let mut r = String::new();
    let ghost texts = spans_view(spans@).map_values(|x: SpanView| x.0);
    let mut i: usize = 0;
    while i < spans.len()
        invariant
            i <= spans@.len(),
            texts == spans_view(spans@).map_values(|x: SpanView| x.0),
            r@ == texts.take(i as int).flatten(),
        decreases spans@.len() - i,
    {
        r.append(spans[i].text.as_str());
        proof {
            assert(texts.take(i + 1) =~= texts.take(i as int) + seq![texts[i as int]]);
            lemma_flatten_concat(texts.take(i as int), seq![texts[i as int]]);
            seq![texts[i as int]].lemma_flatten_one_element();
        }
        i = i + 1;
    }
    assert(texts.take(spans@.len() as int) =~= texts);
    r
}

} // verus!
