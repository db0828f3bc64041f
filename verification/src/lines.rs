//! The lines written for a document, as a specification, and the laws
//! that hold of them.
use vstd::multiset::Multiset;
use vstd::prelude::*;

use crate::json_text::{escaped_text, json_string_literal};
use crate::order::{law_sort_order_is_permutation, law_sort_order_is_sorted, lex_le, sort_order};
use crate::text::decimal;
use crate::unicode::{
    letter_lowercase, letter_modifier, letter_other, letter_uppercase, mark_nonspacing,
    mark_spacing_combining, number_decimal_digit, number_letter, punctuation_connector,
};
use crate::value::JsonValue;

verus! {

/// How a piece of output is highlighted when colors are on.
#[derive(Debug, Clone, Copy, PartialEq, Eq)]
pub enum Style {
    /// Not highlighted (` = `, `;`, the dot before a field name).
    Plain,
    /// `null`.
    Null,
    /// `true` and `false`.
    Bool,
    /// Numbers, array indices included.
    Number,
    /// String literals, quoted keys included.
    String,
    /// Field names, the root name `json` included.
    Field,
    /// `[`, `]` and `{}`.
    Brace,
}

/// A piece of output text with its highlighting.
#[derive(Debug, PartialEq, Eq)]
pub struct Span {
    pub text: String,
    pub style: Style,
}

impl View for Span {
    type V = (Seq<char>, Style);

    open spec fn view(&self) -> (Seq<char>, Style) {
        (self.text@, self.style)
    }
}

/// The view of a piece of output.
pub type SpanView = (Seq<char>, Style);

/// The views of a sequence of spans.
pub open spec fn spans_view(s: Seq<Span>) -> Seq<SpanView> {
    s.map_values(|x: Span| x@)
}

/// The text of a sequence of spans, highlighting dropped.
pub open spec fn plain(s: Seq<SpanView>) -> Seq<char> {
    s.map_values(|x: SpanView| x.0).flatten()
}

/// A char that may start a field name written in dot notation.
pub open spec fn first_field_letter(c: char) -> bool {
    letter_lowercase(c) || letter_modifier(c) || letter_other(c) || letter_uppercase(c)
        || number_letter(c) || c == '$' || c == '_'
}

/// A char that may follow the first one in a field name written in dot notation.
pub open spec fn following_field_letter(c: char) -> bool {
    first_field_letter(c) || mark_nonspacing(c) || mark_spacing_combining(c)
        || number_decimal_digit(c) || punctuation_connector(c)
}

/// An ASCII letter, `a`..`z` or `A`..`Z`.
pub open spec fn ascii_letter(c: char) -> bool {
    ('a' <= c && c <= 'z') || ('A' <= c && c <= 'Z')
}

/// An ASCII digit, `0`..`9`.
pub open spec fn ascii_digit(c: char) -> bool {
    '0' <= c && c <= '9'
}

/// A name made of ASCII chars that is written in dot notation: a letter,
/// `$` or `_` first, then letters, digits, `$` or `_`.
pub open spec fn ascii_identifier(s: Seq<char>) -> bool {
    &&& s.len() > 0
    &&& (ascii_letter(s[0]) || s[0] == '$' || s[0] == '_')
    &&& forall|i: int| 1 <= i < s.len() ==> ascii_letter(#[trigger] s[i]) || ascii_digit(s[i]) || s[i] == '$' || s[i] == '_'
}

/// All chars of `s` are ASCII.
pub open spec fn all_ascii(s: Seq<char>) -> bool {
    forall|i: int| 0 <= i < s.len() ==> (#[trigger] s[i] as int) < 0x80
}

/// A key that is written as `.key` rather than `["key"]`.
pub open spec fn valid_field(s: Seq<char>) -> bool {
    &&& s.len() > 0
    &&& first_field_letter(s[0])
    &&& forall|i: int| 1 <= i < s.len() ==> following_field_letter(#[trigger] s[i])
}

/// The path segment of array element `i`: `[i]`.
pub open spec fn index_segment(i: nat) -> Seq<SpanView> {
    seq![("["@, Style::Brace), (decimal(i), Style::Number), ("]"@, Style::Brace)]
}

/// The path segment of object key `k`: `.k` when `k` is a valid field name,
/// else `["k"]` with `k` as a JSON string literal.
pub open spec fn key_segment(k: Seq<char>) -> Seq<SpanView> {
    if valid_field(k) {
        seq![("."@, Style::Plain), (k, Style::Field)]
    } else {
        seq![("["@, Style::Brace), (json_string_literal(k), Style::String), ("]"@, Style::Brace)]
    }
}

/// The right-hand side of the line written for `v`.
pub open spec fn value_spans(v: JsonValue) -> Seq<SpanView> {
    match v {
        JsonValue::Null => seq![("null"@, Style::Null)],
        JsonValue::Bool(b) => seq![(if b { "true"@ } else { "false"@ }, Style::Bool)],
        JsonValue::Number(text) => seq![(text@, Style::Number)],
        JsonValue::String(s) => seq![(json_string_literal(s@), Style::String)],
        JsonValue::Array(_) => seq![("["@, Style::Brace), ("]"@, Style::Brace)],
        JsonValue::Object(_) => seq![("{}"@, Style::Brace)],
    }
}

/// The line `prefix = value;` followed by a newline.
pub open spec fn line_spans(prefix: Seq<SpanView>, v: JsonValue) -> Seq<SpanView> {
    prefix + seq![(" = "@, Style::Plain)] + value_spans(v) + seq![(";\n"@, Style::Plain)]
}

/// The path of the whole document: `json`.
pub open spec fn root_prefix() -> Seq<SpanView> {
    seq![("json"@, Style::Field)]
}

/// The keys of object entries.
pub open spec fn entry_keys(entries: Seq<(String, JsonValue)>) -> Seq<Seq<char>> {
    entries.map_values(|e: (String, JsonValue)| e.0@)
}

/// The order in which an object's entries are written: insertion order, or
/// sorted by key when sorting is on.
pub open spec fn entry_order(entries: Seq<(String, JsonValue)>, sort: bool) -> Seq<int> {
    if sort {
        sort_order(entry_keys(entries))
    } else {
        Seq::new(entries.len(), |i: int| i)
    }
}

/// The lines written for `v` at path `prefix`: its own line, then the lines
/// of its elements (arrays, by index) or entries (objects, in `entry_order`).
pub open spec fn flat(prefix: Seq<SpanView>, v: JsonValue, sort: bool) -> Seq<Seq<SpanView>>
    decreases v, 0int,
{
    seq![line_spans(prefix, v)] + match v {
        JsonValue::Array(items) => flat_items(prefix, items@, 0, sort),
        JsonValue::Object(entries) => flat_entries(
            prefix,
            entries@,
            entry_order(entries@, sort),
            0,
            sort,
        ),
        _ => Seq::empty(),
    }
}

/// The lines written for the array elements `items[i..]` under `prefix`.
pub open spec fn flat_items(prefix: Seq<SpanView>, items: Seq<JsonValue>, i: int, sort: bool) -> Seq<
    Seq<SpanView>,
>
    decreases items, items.len() - i,
{
    if 0 <= i < items.len() {
        flat(prefix + index_segment(i as nat), items[i], sort) + flat_items(prefix, items, i + 1, sort)
    } else {
        Seq::empty()
    }
}

/// The lines written for the object entries `entries[ord[k]]`, `ord[k + 1]`, ...
/// under `prefix`.
pub open spec fn flat_entries(
    prefix: Seq<SpanView>,
    entries: Seq<(String, JsonValue)>,
    ord: Seq<int>,
    k: int,
    sort: bool,
) -> Seq<Seq<SpanView>>
    decreases entries, ord.len() - k,
{
    if 0 <= k < ord.len() && 0 <= ord[k] < entries.len() {
        flat(prefix + key_segment(entries[ord[k]].0@), entries[ord[k]].1, sort) + flat_entries(
            prefix,
            entries,
            ord,
            k + 1,
            sort,
        )
    } else {
        Seq::empty()
    }
}

/// The lines written for a whole document.
pub open spec fn flattened(v: JsonValue, sort: bool) -> Seq<Seq<SpanView>> {
    flat(root_prefix(), v, sort)
}

/// The paths and values of the elements or entries of `v`, in writing order.
pub open spec fn children(prefix: Seq<SpanView>, v: JsonValue, sort: bool) -> Seq<(Seq<SpanView>, JsonValue)> {
    match v {
        JsonValue::Array(items) => Seq::new(
            items@.len(),
            |i: int| (prefix + index_segment(i as nat), items@[i]),
        ),
        JsonValue::Object(entries) => {
            let ord = entry_order(entries@, sort);
            Seq::new(
                ord.len(),
                |i: int| (prefix + key_segment(entries@[ord[i]].0@), entries@[ord[i]].1),
            )
        },
        _ => Seq::empty(),
    }
}

/// The lines written for a sequence of (path, value) pairs, one after the other.
pub open spec fn flat_all(work: Seq<(Seq<SpanView>, JsonValue)>, sort: bool) -> Seq<Seq<SpanView>> {
    Seq::new(work.len(), |i: int| flat(work[i].0, work[i].1, sort)).flatten()
}

/// Flattening distributes over concatenation.
pub proof fn lemma_flatten_concat<A>(x: Seq<Seq<A>>, y: Seq<Seq<A>>)
    ensures
        (x + y).flatten() == x.flatten() + y.flatten(),
    decreases x.len(),
{
    if x.len() == 0 {
        assert(x + y =~= y);
        assert(x.flatten() + y.flatten() =~= y.flatten());
    } else {
        lemma_flatten_concat(x.drop_first(), y);
        assert((x + y).drop_first() =~= x.drop_first() + y);
        assert((x + y).first() == x.first());
        assert((x + y).flatten() =~= x.first() + (x.drop_first().flatten() + y.flatten()));
    }
}

/// The entry order is a permutation of the entry indices.
pub proof fn lemma_entry_order(entries: Seq<(String, JsonValue)>, sort: bool)
    ensures
        entry_order(entries, sort).len() == entries.len(),
        forall|i: int|
            0 <= i < entries.len() ==> 0 <= #[trigger] entry_order(entries, sort)[i] < entries.len(),
        forall|i: int, j: int|
            0 <= i < j < entries.len() ==> #[trigger] entry_order(entries, sort)[i]
                != #[trigger] entry_order(entries, sort)[j],
{
    if sort {
        law_sort_order_is_permutation(entry_keys(entries));
    }
}

/// The lines of a sequence of pairs, split at a concatenation.
pub proof fn lemma_flat_all_concat(a: Seq<(Seq<SpanView>, JsonValue)>, b: Seq<(Seq<SpanView>, JsonValue)>, sort: bool)
    ensures
        flat_all(a + b, sort) == flat_all(a, sort) + flat_all(b, sort),
{
    let fa = Seq::new(a.len(), |i: int| flat(a[i].0, a[i].1, sort));
    let fb = Seq::new(b.len(), |i: int| flat(b[i].0, b[i].1, sort));
    let ab = a + b;
    let fab = Seq::new(ab.len(), |i: int| flat(ab[i].0, ab[i].1, sort));
    assert(fab =~= fa + fb);
    lemma_flatten_concat(fa, fb);
}

/// The lines of a single pair.
pub proof fn lemma_flat_all_single(w: (Seq<SpanView>, JsonValue), sort: bool)
    ensures
        flat_all(seq![w], sort) == flat(w.0, w.1, sort),
{
    let f = Seq::new(1, |i: int| flat(seq![w][i].0, seq![w][i].1, sort));
    f.lemma_flatten_one_element();
}

/// The lines of a pair followed by those of more pairs.
pub proof fn lemma_flat_all_cons(w: (Seq<SpanView>, JsonValue), rest: Seq<(Seq<SpanView>, JsonValue)>, sort: bool)
    ensures
        flat_all(seq![w] + rest, sort) == flat(w.0, w.1, sort) + flat_all(rest, sort),
{
    lemma_flat_all_concat(seq![w], rest, sort);
    lemma_flat_all_single(w, sort);
}

/// The lines of array elements `i..` are those of the corresponding children.
proof fn lemma_flat_items(prefix: Seq<SpanView>, items: Seq<JsonValue>, i: int, sort: bool)
    requires
        0 <= i <= items.len(),
    ensures
        flat_items(prefix, items, i, sort) == flat_all(
            Seq::new(items.len(), |j: int| (prefix + index_segment(j as nat), items[j])).subrange(
                i,
                items.len() as int,
            ),
            sort,
        ),
    decreases items.len() - i,
{
    let ch = Seq::new(items.len(), |j: int| (prefix + index_segment(j as nat), items[j]));
    if i == items.len() {
        let e = ch.subrange(i, items.len() as int);
        assert(e =~= Seq::empty());
        assert(Seq::new(e.len(), |j: int| flat(e[j].0, e[j].1, sort)) =~= Seq::empty());
    } else {
        lemma_flat_items(prefix, items, i + 1, sort);
        assert(ch.subrange(i, items.len() as int) =~= seq![ch[i]] + ch.subrange(i + 1, items.len() as int));
        lemma_flat_all_cons(ch[i], ch.subrange(i + 1, items.len() as int), sort);
    }
}

/// The lines of object entries `k..` in `ord` are those of the corresponding children.
proof fn lemma_flat_entries(
    prefix: Seq<SpanView>,
    entries: Seq<(String, JsonValue)>,
    ord: Seq<int>,
    k: int,
    sort: bool,
)
    requires
        0 <= k <= ord.len(),
        forall|j: int| 0 <= j < ord.len() ==> 0 <= #[trigger] ord[j] < entries.len(),
    ensures
        flat_entries(prefix, entries, ord, k, sort) == flat_all(
            Seq::new(
                ord.len(),
                |j: int| (prefix + key_segment(entries[ord[j]].0@), entries[ord[j]].1),
            ).subrange(k, ord.len() as int),
            sort,
        ),
    decreases ord.len() - k,
{
    let ch = Seq::new(
        ord.len(),
        |j: int| (prefix + key_segment(entries[ord[j]].0@), entries[ord[j]].1),
    );
    if k == ord.len() {
        let e = ch.subrange(k, ord.len() as int);
        assert(e =~= Seq::empty());
        assert(Seq::new(e.len(), |j: int| flat(e[j].0, e[j].1, sort)) =~= Seq::empty());
    } else {
        lemma_flat_entries(prefix, entries, ord, k + 1, sort);
        assert(ch.subrange(k, ord.len() as int) =~= seq![ch[k]] + ch.subrange(k + 1, ord.len() as int));
        lemma_flat_all_cons(ch[k], ch.subrange(k + 1, ord.len() as int), sort);
    }
}

/// The lines of `v`: its own line, then those of its children.
pub proof fn lemma_flat_unfold(prefix: Seq<SpanView>, v: JsonValue, sort: bool)
    ensures
        flat(prefix, v, sort) == seq![line_spans(prefix, v)] + flat_all(children(prefix, v, sort), sort),
{
    let ch = children(prefix, v, sort);
    match v {
        JsonValue::Array(items) => {
            lemma_flat_items(prefix, items@, 0, sort);
            assert(ch.subrange(0, items@.len() as int) =~= ch);
        },
        JsonValue::Object(entries) => {
            let ord = entry_order(entries@, sort);
            lemma_entry_order(entries@, sort);
            lemma_flat_entries(prefix, entries@, ord, 0, sort);
            assert(ch.subrange(0, ord.len() as int) =~= ch);
        },
        _ => {
            assert(Seq::new(ch.len(), |i: int| flat(ch[i].0, ch[i].1, sort)) =~= Seq::empty());
        },
    }
}

/// The number of values in `v`, `v` itself included.
pub open spec fn value_count(v: JsonValue) -> nat
    decreases v, 0int,
{
    1 + match v {
        JsonValue::Array(items) => items_count(items@, 0),
        JsonValue::Object(entries) => entries_count(entries@, 0),
        _ => 0,
    }
}

/// The number of values in the array elements `items[i..]`.
pub open spec fn items_count(items: Seq<JsonValue>, i: int) -> nat
    decreases items, items.len() - i,
{
    if 0 <= i < items.len() {
        value_count(items[i]) + items_count(items, i + 1)
    } else {
        0
    }
}

/// The number of values in the object entries `entries[i..]`.
pub open spec fn entries_count(entries: Seq<(String, JsonValue)>, i: int) -> nat
    decreases entries, entries.len() - i,
{
    if 0 <= i < entries.len() {
        value_count(entries[i].1) + entries_count(entries, i + 1)
    } else {
        0
    }
}

/// The number of values in the entries `entries[ord[k]]`, `entries[ord[k + 1]]`, ...
pub open spec fn ordered_count(entries: Seq<(String, JsonValue)>, ord: Seq<int>, k: int) -> nat
    decreases ord.len() - k,
{
    if 0 <= k < ord.len() && 0 <= ord[k] < entries.len() {
        value_count(entries[ord[k]].1) + ordered_count(entries, ord, k + 1)
    } else {
        0
    }
}

/// The lines of the blocks `f(s[0])`, `f(s[1])`, ... taken together,
/// without regard to order.
pub open spec fn multiset_sum(s: Seq<int>, f: spec_fn(int) -> Multiset<Seq<SpanView>>) -> Multiset<
    Seq<SpanView>,
>
    decreases s.len(),
{
    if s.len() == 0 {
        Multiset::empty()
    } else {
        f(s[0]).add(multiset_sum(s.drop_first(), f))
    }
}

/// `s` holds each of its elements once.
pub open spec fn no_duplicates(s: Seq<int>) -> bool {
    forall|i: int, j: int| 0 <= i < j < s.len() ==> #[trigger] s[i] != #[trigger] s[j]
}

/// Taking one block out of a sum.
proof fn lemma_multiset_sum_remove(s: Seq<int>, j: int, f: spec_fn(int) -> Multiset<Seq<SpanView>>)
    requires
        0 <= j < s.len(),
    ensures
        multiset_sum(s, f) == f(s[j]).add(multiset_sum(s.remove(j), f)),
    decreases s.len(),
{
    broadcast use vstd::multiset::group_multiset_axioms;

    if j > 0 {
        lemma_multiset_sum_remove(s.drop_first(), j - 1, f);
        assert(s.remove(j).drop_first() =~= s.drop_first().remove(j - 1));
        assert(s.remove(j)[0] == s[0]);
        assert(multiset_sum(s, f) =~= f(s[j]).add(multiset_sum(s.remove(j), f)));
    } else {
        assert(s.remove(0) =~= s.drop_first());
    }
}

/// A sum of blocks does not depend on the order of the blocks.
proof fn lemma_multiset_sum_permutation(s: Seq<int>, t: Seq<int>, f: spec_fn(int) -> Multiset<Seq<SpanView>>)
    requires
        s.len() == t.len(),
        no_duplicates(s),
        no_duplicates(t),
        forall|x: int| s.contains(x) ==> t.contains(x),
    ensures
        multiset_sum(s, f) == multiset_sum(t, f),
    decreases s.len(),
{
    if s.len() > 0 {
        assert(s.contains(s[0]));
        let j = choose|j: int| 0 <= j < t.len() && t[j] == s[0];
        lemma_multiset_sum_remove(t, j, f);
        let s2 = s.drop_first();
        let t2 = t.remove(j);
        assert forall|x: int| s2.contains(x) implies t2.contains(x) by {
            let a = choose|a: int| 0 <= a < s2.len() && s2[a] == x;
            assert(s[a + 1] == x);
            assert(s.contains(x));
            let b = choose|b: int| 0 <= b < t.len() && t[b] == x;
            assert(x != s[0]);
            assert(b != j);
            if b < j {
                assert(t2[b] == x);
            } else {
                assert(t2[b - 1] == x);
            }
        }
        assert forall|a: int, b: int| 0 <= a < b < t2.len() implies #[trigger] t2[a] != #[trigger] t2[b] by {
            if b < j {
                assert(t2[a] == t[a] && t2[b] == t[b]);
            } else if a < j {
                assert(t2[a] == t[a] && t2[b] == t[b + 1]);
            } else {
                assert(t2[a] == t[a + 1] && t2[b] == t[b + 1]);
            }
        }
        assert forall|a: int, b: int| 0 <= a < b < s2.len() implies #[trigger] s2[a] != #[trigger] s2[b] by {
            assert(s2[a] == s[a + 1] && s2[b] == s[b + 1]);
        }
        lemma_multiset_sum_permutation(s2, t2, f);
    }
}

/// The lines of an entry written unsorted, as a block.
pub open spec fn entry_block(prefix: Seq<SpanView>, entries: Seq<(String, JsonValue)>) -> spec_fn(int) -> Multiset<
    Seq<SpanView>,
> {
    |x: int| flat(prefix + key_segment(entries[x].0@), entries[x].1, false).to_multiset()
}

/// Sorting changes only the order of the lines of `v`.
proof fn lemma_flat_multiset(prefix: Seq<SpanView>, v: JsonValue)
    ensures
        flat(prefix, v, true).to_multiset() == flat(prefix, v, false).to_multiset(),
    decreases v, 0int,
{
    let head = seq![line_spans(prefix, v)];
    match v {
        JsonValue::Array(items) => {
            lemma_items_multiset(prefix, items@, 0);
            vstd::seq_lib::lemma_multiset_commutative(head, flat_items(prefix, items@, 0, true));
            vstd::seq_lib::lemma_multiset_commutative(head, flat_items(prefix, items@, 0, false));
        },
        JsonValue::Object(entries) => {
            let e = entries@;
            let ot = entry_order(e, true);
            let of = entry_order(e, false);
            lemma_entry_order(e, true);
            lemma_entry_order(e, false);
            lemma_entries_multiset(prefix, e, ot, 0, true);
            lemma_entries_multiset(prefix, e, of, 0, false);
            assert(ot.subrange(0, ot.len() as int) =~= ot);
            assert(of.subrange(0, of.len() as int) =~= of);
            assert forall|x: int| ot.contains(x) implies of.contains(x) by {
                let a = choose|a: int| 0 <= a < ot.len() && ot[a] == x;
                assert(of[x] == x);
            }
            lemma_multiset_sum_permutation(ot, of, entry_block(prefix, e));
            vstd::seq_lib::lemma_multiset_commutative(head, flat_entries(prefix, e, ot, 0, true));
            vstd::seq_lib::lemma_multiset_commutative(head, flat_entries(prefix, e, of, 0, false));
        },
        _ => {},
    }
}

/// Sorting changes only the order of the lines of array elements `i..`.
proof fn lemma_items_multiset(prefix: Seq<SpanView>, items: Seq<JsonValue>, i: int)
    ensures
        flat_items(prefix, items, i, true).to_multiset() == flat_items(prefix, items, i, false).to_multiset(),
    decreases items, items.len() - i,
{
    if 0 <= i < items.len() {
        let p = prefix + index_segment(i as nat);
        lemma_flat_multiset(p, items[i]);
        lemma_items_multiset(prefix, items, i + 1);
        vstd::seq_lib::lemma_multiset_commutative(flat(p, items[i], true), flat_items(prefix, items, i + 1, true));
        vstd::seq_lib::lemma_multiset_commutative(flat(p, items[i], false), flat_items(prefix, items, i + 1, false));
    }
}

/// The lines of object entries `k..` in `ord`, as a sum of unsorted blocks.
proof fn lemma_entries_multiset(
    prefix: Seq<SpanView>,
    entries: Seq<(String, JsonValue)>,
    ord: Seq<int>,
    k: int,
    sort: bool,
)
    requires
        0 <= k <= ord.len(),
        forall|j: int| 0 <= j < ord.len() ==> 0 <= #[trigger] ord[j] < entries.len(),
    ensures
        flat_entries(prefix, entries, ord, k, sort).to_multiset() == multiset_sum(
            ord.subrange(k, ord.len() as int),
            entry_block(prefix, entries),
        ),
    decreases entries, ord.len() - k,
{
    if k < ord.len() {
        let x = ord[k];
        let p = prefix + key_segment(entries[x].0@);
        if sort {
            lemma_flat_multiset(p, entries[x].1);
        }
        lemma_entries_multiset(prefix, entries, ord, k + 1, sort);
        assert(ord.subrange(k, ord.len() as int).drop_first() =~= ord.subrange(k + 1, ord.len() as int));
        vstd::seq_lib::lemma_multiset_commutative(flat(p, entries[x].1, sort), flat_entries(prefix, entries, ord, k + 1, sort));
    } else {
        assert(ord.subrange(k, ord.len() as int) =~= Seq::<int>::empty());
        assert(flat_entries(prefix, entries, ord, k, sort) =~= Seq::<Seq<SpanView>>::empty());
        broadcast use vstd::seq_lib::group_to_multiset_ensures;
        assert(flat_entries(prefix, entries, ord, k, sort).to_multiset().len() == 0);
        assert(flat_entries(prefix, entries, ord, k, sort).to_multiset() =~= Multiset::empty());
    }
}

/// Sorting object keys changes only the order of the lines, not which lines
/// are written.
pub proof fn law_sorting_only_reorders_lines(v: JsonValue)
    ensures
        flattened(v, true).to_multiset() == flattened(v, false).to_multiset(),
{
    lemma_flat_multiset(root_prefix(), v);
}

/// In document order, counting entries one by one counts them all.
proof fn lemma_ordered_count_in_order(entries: Seq<(String, JsonValue)>, k: int)
    requires
        0 <= k <= entries.len(),
    ensures
        ordered_count(entries, entry_order(entries, false), k) == entries_count(entries, k),
    decreases entries.len() - k,
{
    if k < entries.len() {
        lemma_ordered_count_in_order(entries, k + 1);
    }
}

/// Without sorting, `flat` writes one line per value.
proof fn lemma_flat_len(prefix: Seq<SpanView>, v: JsonValue)
    ensures
        flat(prefix, v, false).len() == value_count(v),
    decreases v, 0int,
{
    match v {
        JsonValue::Array(items) => {
            lemma_items_len(prefix, items@, 0);
        },
        JsonValue::Object(entries) => {
            let ord = entry_order(entries@, false);
            lemma_entries_len(prefix, entries@, ord, 0);
            lemma_ordered_count_in_order(entries@, 0);
        },
        _ => {},
    }
}

/// Without sorting, `flat_items` writes one line per value.
proof fn lemma_items_len(prefix: Seq<SpanView>, items: Seq<JsonValue>, i: int)
    ensures
        flat_items(prefix, items, i, false).len() == items_count(items, i),
    decreases items, items.len() - i,
{
    if 0 <= i < items.len() {
        lemma_flat_len(prefix + index_segment(i as nat), items[i]);
        lemma_items_len(prefix, items, i + 1);
    }
}

/// Without sorting, `flat_entries` writes one line per value.
proof fn lemma_entries_len(
    prefix: Seq<SpanView>,
    entries: Seq<(String, JsonValue)>,
    ord: Seq<int>,
    k: int,
)
    ensures
        flat_entries(prefix, entries, ord, k, false).len() == ordered_count(entries, ord, k),
    decreases entries, ord.len() - k,
{
    if 0 <= k < ord.len() && 0 <= ord[k] < entries.len() {
        lemma_flat_len(prefix + key_segment(entries[ord[k]].0@), entries[ord[k]].1);
        lemma_entries_len(prefix, entries, ord, k + 1);
    }
}

/// One line is written per value of the document, sorted or not.
pub proof fn law_one_line_per_value(v: JsonValue, sort: bool)
    ensures
        flattened(v, sort).len() == value_count(v),
{
    broadcast use vstd::seq_lib::group_to_multiset_ensures;

    lemma_flat_len(root_prefix(), v);
    if sort {
        law_sorting_only_reorders_lines(v);
        assert(flattened(v, true).to_multiset().len() == flattened(v, false).to_multiset().len());
    }
}

/// Each of `lines` extends the path `p` and ends with `;` and a newline.
pub open spec fn lines_extend(p: Seq<SpanView>, lines: Seq<Seq<SpanView>>) -> bool {
    forall|i: int|
        0 <= i < lines.len() ==> #[trigger] lines[i].len() > p.len() && lines[i].take(p.len() as int) == p
            && lines[i].last() == (";\n"@, Style::Plain)
}

/// Lines that extend a longer path extend its prefixes too.
proof fn lemma_lines_extend_shorter(p: Seq<SpanView>, seg: Seq<SpanView>, lines: Seq<Seq<SpanView>>)
    requires
        lines_extend(p + seg, lines),
    ensures
        lines_extend(p, lines),
{
    assert forall|i: int| 0 <= i < lines.len() implies #[trigger] lines[i].len() > p.len()
        && lines[i].take(p.len() as int) == p && lines[i].last() == (";\n"@, Style::Plain) by {
        assert(lines[i].take((p + seg).len() as int) == p + seg);
        assert(lines[i].take(p.len() as int) =~= (p + seg).take(p.len() as int));
        assert((p + seg).take(p.len() as int) =~= p);
    }
}

/// Lines extending a path, joined.
proof fn lemma_lines_extend_concat(p: Seq<SpanView>, a: Seq<Seq<SpanView>>, b: Seq<Seq<SpanView>>)
    requires
        lines_extend(p, a),
        lines_extend(p, b),
    ensures
        lines_extend(p, a + b),
{
    assert forall|i: int| 0 <= i < (a + b).len() implies #[trigger] (a + b)[i].len() > p.len()
        && (a + b)[i].take(p.len() as int) == p && (a + b)[i].last() == (";\n"@, Style::Plain) by {
        if i < a.len() {
            assert((a + b)[i] == a[i]);
        } else {
            assert((a + b)[i] == b[i - a.len()]);
        }
    }
}

/// The lines of `v` at path `prefix` all extend `prefix`.
proof fn lemma_flat_extends(prefix: Seq<SpanView>, v: JsonValue, sort: bool)
    ensures
        lines_extend(prefix, flat(prefix, v, sort)),
    decreases v, 0int,
{
    let head = seq![line_spans(prefix, v)];
    let l = line_spans(prefix, v);
    assert(l.take(prefix.len() as int) =~= prefix);
    assert(lines_extend(prefix, head));
    match v {
        JsonValue::Array(items) => {
            lemma_items_extend(prefix, items@, 0, sort);
            lemma_lines_extend_concat(prefix, head, flat_items(prefix, items@, 0, sort));
        },
        JsonValue::Object(entries) => {
            let ord = entry_order(entries@, sort);
            lemma_entries_extend(prefix, entries@, ord, 0, sort);
            lemma_lines_extend_concat(prefix, head, flat_entries(prefix, entries@, ord, 0, sort));
        },
        _ => {
            assert(flat(prefix, v, sort) =~= head);
        },
    }
}

/// The lines of array elements all extend the array's path.
proof fn lemma_items_extend(prefix: Seq<SpanView>, items: Seq<JsonValue>, i: int, sort: bool)
    ensures
        lines_extend(prefix, flat_items(prefix, items, i, sort)),
    decreases items, items.len() - i,
{
    if 0 <= i < items.len() {
        let seg = index_segment(i as nat);
        lemma_flat_extends(prefix + seg, items[i], sort);
        lemma_lines_extend_shorter(prefix, seg, flat(prefix + seg, items[i], sort));
        lemma_items_extend(prefix, items, i + 1, sort);
        lemma_lines_extend_concat(
            prefix,
            flat(prefix + seg, items[i], sort),
            flat_items(prefix, items, i + 1, sort),
        );
    }
}

/// The lines of object entries all extend the object's path.
proof fn lemma_entries_extend(
    prefix: Seq<SpanView>,
    entries: Seq<(String, JsonValue)>,
    ord: Seq<int>,
    k: int,
    sort: bool,
)
    ensures
        lines_extend(prefix, flat_entries(prefix, entries, ord, k, sort)),
    decreases entries, ord.len() - k,
{
    if 0 <= k < ord.len() && 0 <= ord[k] < entries.len() {
        let seg = key_segment(entries[ord[k]].0@);
        lemma_flat_extends(prefix + seg, entries[ord[k]].1, sort);
        lemma_lines_extend_shorter(prefix, seg, flat(prefix + seg, entries[ord[k]].1, sort));
        lemma_entries_extend(prefix, entries, ord, k + 1, sort);
        lemma_lines_extend_concat(
            prefix,
            flat(prefix + seg, entries[ord[k]].1, sort),
            flat_entries(prefix, entries, ord, k + 1, sort),
        );
    }
}

/// A string value is always written as a JSON string literal, highlighted
/// as a string, whatever characters it holds: a double quote, its escaped
/// characters, a double quote. A string that needs no escape (no quote, no
/// backslash, no control character) is written between quotes as it is, so
/// a string of digits is never written bare like a number.
pub proof fn law_string_values_are_quoted(s: String)
    ensures
        value_spans(JsonValue::String(s)) == seq![(json_string_literal(s@), Style::String)],
        json_string_literal(s@).len() >= 2,
        json_string_literal(s@)[0] == '"',
        json_string_literal(s@).last() == '"',
        (forall|i: int| 0 <= i < s@.len() ==> #[trigger] s@[i] != '"' && s@[i] != '\\' && (s@[i] as int) >= 0x20)
            ==> json_string_literal(s@) == seq!['"'] + s@ + seq!['"'],
{
    if forall|i: int| 0 <= i < s@.len() ==> #[trigger] s@[i] != '"' && s@[i] != '\\' && (s@[i] as int) >= 0x20 {
        lemma_plain_text_unescaped(s@);
    }
}

/// Numbers are written bare, as the text the parser rendered for them;
/// `null`, `true` and `false` as those words; an array as `[]` and an
/// object as `{}` on their own line, their contents on the lines after.
pub proof fn law_other_values_are_written_as_is(text: String, b: bool, items: Vec<JsonValue>, entries: Vec<(String, JsonValue)>)
    ensures
        value_spans(JsonValue::Number(text)) == seq![(text@, Style::Number)],
        value_spans(JsonValue::Null) == seq![("null"@, Style::Null)],
        value_spans(JsonValue::Bool(b)) == seq![(if b { "true"@ } else { "false"@ }, Style::Bool)],
        plain(value_spans(JsonValue::Array(items))) == "[]"@,
        plain(value_spans(JsonValue::Object(entries))) == "{}"@,
{
    reveal_strlit("[");
    reveal_strlit("]");
    reveal_strlit("[]");
    reveal_strlit("{}");
    let a = value_spans(JsonValue::Array(items));
    assert(a.map_values(|x: SpanView| x.0) =~= seq!["["@, "]"@]);
    let two = seq!["["@, "]"@];
    assert(two.drop_first().drop_first().flatten() =~= Seq::<char>::empty());
    assert(two.drop_first().flatten() =~= "]"@);
    assert(two.flatten() =~= "["@ + "]"@);
    assert("["@ + "]"@ =~= "[]"@);
    let o = value_spans(JsonValue::Object(entries));
    assert(o.map_values(|x: SpanView| x.0) =~= seq!["{}"@]);
    let one = seq!["{}"@];
    assert(one.drop_first().flatten() =~= Seq::<char>::empty());
    assert(one.flatten() =~= "{}"@);
}

/// Text with no quote, backslash or control character is its own escaped
/// form.
proof fn lemma_plain_text_unescaped(s: Seq<char>)
    requires
        forall|i: int| 0 <= i < s.len() ==> #[trigger] s[i] != '"' && s[i] != '\\' && (s[i] as int) >= 0x20,
    ensures
        escaped_text(s) == s,
    decreases s.len(),
{
    if s.len() > 0 {
        assert(forall|i: int| 0 <= i < s.drop_last().len() ==> s.drop_last()[i] == s[i]);
        lemma_plain_text_unescaped(s.drop_last());
        let c = s.last();
        assert(s[s.len() - 1] == c);
        assert(s =~= s.drop_last() + seq![c]);
    }
}

/// Every line is a complete assignment that can be grepped on its own: it
/// starts with the root path `json` and ends with `;` and a newline. The
/// first line is the one of the whole document.
pub proof fn law_lines_are_assignments(v: JsonValue, sort: bool)
    ensures
        flattened(v, sort).len() >= 1,
        flattened(v, sort)[0] == line_spans(root_prefix(), v),
        forall|i: int|
            0 <= i < flattened(v, sort).len() ==> (#[trigger] flattened(v, sort)[i])[0] == ("json"@, Style::Field)
                && flattened(v, sort)[i].last() == (";\n"@, Style::Plain),
{
    lemma_flat_extends(root_prefix(), v, sort);
    assert forall|i: int| 0 <= i < flattened(v, sort).len() implies (#[trigger] flattened(v, sort)[i])[0] == (
        "json"@,
        Style::Field,
    ) by {
        let l = flattened(v, sort)[i];
        assert(l.take(1) == root_prefix());
        assert(l.take(1)[0] == l[0]);
    }
}

/// With sorting on, the entries of every object are written in key order,
/// equal keys in document order, each entry once.
pub proof fn law_sorted_entry_order(entries: Seq<(String, JsonValue)>)
    ensures
        entry_order(entries, true) == sort_order(entry_keys(entries)),
        forall|i: int, j: int|
            0 <= i < j < entries.len() ==> lex_le(
                entry_keys(entries)[#[trigger] entry_order(entries, true)[i]],
                entry_keys(entries)[#[trigger] entry_order(entries, true)[j]],
            ),
        forall|i: int, j: int|
            0 <= i < j < entries.len() ==> #[trigger] entry_order(entries, true)[i]
                != #[trigger] entry_order(entries, true)[j],
{
    law_sort_order_is_sorted(entry_keys(entries));
    law_sort_order_is_permutation(entry_keys(entries));
}

/// With sorting off, the entries of every object are written in document order.
pub proof fn law_unsorted_entry_order(entries: Seq<(String, JsonValue)>)
    ensures
        forall|i: int| 0 <= i < entries.len() ==> #[trigger] entry_order(entries, false)[i] == i,
{
}

} // verus!
