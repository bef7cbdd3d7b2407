//! Structured data conversion (JSON, YAML, TOML, CSV): every document is
//! decoded into one generic value tree and re-encoded in the target format.
use vstd::prelude::*;
use crate::format::{format_name, Format};
use crate::registry::{ConversionAdapter, Route};
use crate::text::{
    chars_less, chars_of, int_chars, int_text, parse_i64, parse_i64_chars, str_lt, string_views,
    chars_to_string, starts_with, with_detail, strictly_ascending, lemma_str_lt_transitive,
    lemma_str_lt_total, lemma_str_lt_irreflexive,
};
use vstd::utf8::{decode_utf8, valid_utf8};

verus! {

pub struct DataAdapter;

pub open spec fn data_routes() -> Seq<Route> {
    seq![
        (Format::Json, Format::Yaml),
        (Format::Json, Format::Toml),
        (Format::Json, Format::Csv),
        (Format::Yaml, Format::Json),
        (Format::Yaml, Format::Toml),
        (Format::Yaml, Format::Csv),
        (Format::Toml, Format::Json),
        (Format::Toml, Format::Yaml),
        (Format::Toml, Format::Csv),
        (Format::Csv, Format::Json),
        (Format::Csv, Format::Yaml),
        (Format::Csv, Format::Toml)
    ]
}

impl ConversionAdapter for DataAdapter {
    open spec fn spec_name(&self) -> Seq<char> {
        "data-adapter"@
    }

    open spec fn spec_routes(&self) -> Seq<Route> {
        data_routes()
    }

    fn name(&self) -> (r: &'static str) {
        "data-adapter"
    }

    fn supported_routes(&self) -> (r: Vec<Route>) {
        let r = vec![
            (Format::Json, Format::Yaml),
            (Format::Json, Format::Toml),
            (Format::Json, Format::Csv),
            (Format::Yaml, Format::Json),
            (Format::Yaml, Format::Toml),
            (Format::Yaml, Format::Csv),
            (Format::Toml, Format::Json),
            (Format::Toml, Format::Yaml),
            (Format::Toml, Format::Csv),
            (Format::Csv, Format::Json),
            (Format::Csv, Format::Yaml),
            (Format::Csv, Format::Toml)
        ];
        assert(r@ =~= data_routes());
        r
    }
}

// ---------------------------------------------------------------------
// The value tree every data format is decoded into
// ---------------------------------------------------------------------

/// A JSON-style value. Numbers are kept as their JSON text. An object
/// holds its entries in order; the objects read by `serde_json` (an
/// ordered map) and those decoded from CSV records
/// (`lemma_record_keys_ascending`) hold each key once, in ascending
/// order.
#[derive(Debug)]
pub enum JsonValue {
    Null,
    Bool(bool),
    Number(String),
    Str(String),
    Array(Vec<JsonValue>),
    Object(Vec<(String, JsonValue)>),
}

/// What `serde_json::to_string` writes for the value (compact JSON), or
/// the empty text if it fails.
pub uninterp spec fn json_compact_of(v: JsonValue) -> Seq<char>;

/// Converts the `serde_json` value, variant for variant, into a
/// `JsonValue` (numbers by their `Display` text, objects in map order).
#[verifier::external_body]
fn from_serde(v: serde_json::Value) -> (r: JsonValue) {
    match v {
        serde_json::Value::Null => JsonValue::Null,
        serde_json::Value::Bool(b) => JsonValue::Bool(b),
        serde_json::Value::Number(n) => JsonValue::Number(n.to_string()),
        serde_json::Value::String(s) => JsonValue::Str(s),
        serde_json::Value::Array(a) => JsonValue::Array(a.into_iter().map(from_serde).collect()),
        serde_json::Value::Object(m) => JsonValue::Object(
            m.into_iter().map(|(k, x)| (k, from_serde(x))).collect(),
        ),
    }
}

/// Converts a `JsonValue`, variant for variant, into a `serde_json` value;
/// a number is re-read from its text (a text that is not a JSON number
/// becomes `null`), object entries are inserted into a `serde_json` map
/// in order.
#[verifier::external_body]
fn to_serde(v: &JsonValue) -> (r: serde_json::Value) {
    match v {
        JsonValue::Null => serde_json::Value::Null,
        JsonValue::Bool(b) => serde_json::Value::Bool(*b),
        JsonValue::Number(t) => serde_json::from_str(t).unwrap_or(serde_json::Value::Null),
        JsonValue::Str(s) => serde_json::Value::String(s.clone()),
        JsonValue::Array(a) => serde_json::Value::Array(a.iter().map(to_serde).collect()),
        JsonValue::Object(m) => serde_json::Value::Object(
            m.iter().map(|(k, x)| (k.clone(), to_serde(x))).collect(),
        ),
    }
}

/// A serde value, carried unread.
#[verifier::external_type_specification]
#[verifier::external_body]
pub struct ExJsonValue(serde_json::Value);

/// Calls `serde_json::to_string` (compact JSON), yielding the empty text
/// on failure; the text is named `json_compact_of`.
#[verifier::external_body]
fn compact_json(v: &JsonValue) -> (r: String)
    ensures
        r@ == json_compact_of(*v),
{
    serde_json::to_string(&to_serde(v)).unwrap_or_default()
}

// ---------------------------------------------------------------------
// Laying a value out as CSV records
// ---------------------------------------------------------------------

/// The CSV cell for a value: empty for null, `true`/`false`, the number or
/// string text, and compact JSON for arrays and objects.
pub open spec fn cell_text(v: JsonValue) -> Seq<char> {
    match v {
        JsonValue::Null => Seq::empty(),
        JsonValue::Bool(b) => if b {
            "true"@
        } else {
            "false"@
        },
        JsonValue::Number(t) => t@,
        JsonValue::Str(s) => s@,
        _ => json_compact_of(v),
    }
}

pub open spec fn keys_of(es: Seq<(String, JsonValue)>) -> Seq<Seq<char>> {
    es.map_values(|e: (String, JsonValue)| e.0@)
}

/// Add `k` to the strictly ascending list `hs` (a sorted-set insertion).
pub open spec fn insert_sorted(hs: Seq<Seq<char>>, k: Seq<char>) -> Seq<Seq<char>>
    decreases hs.len(),
{
    if hs.len() == 0 {
        seq![k]
    } else if hs[0] == k {
        hs
    } else if str_lt(k, hs[0]) {
        seq![k] + hs
    } else {
        seq![hs[0]] + insert_sorted(hs.drop_first(), k)
    }
}

pub open spec fn insert_all(hs: Seq<Seq<char>>, ks: Seq<Seq<char>>) -> Seq<Seq<char>>
    decreases ks.len(),
{
    if ks.len() == 0 {
        hs
    } else {
        insert_all(insert_sorted(hs, ks[0]), ks.drop_first())
    }
}

/// The keys of every object among `items`, added to `hs`.
pub open spec fn union_keys(hs: Seq<Seq<char>>, items: Seq<JsonValue>) -> Seq<Seq<char>>
    decreases items.len(),
{
    if items.len() == 0 {
        hs
    } else {
        let hs1 = match items[0] {
            JsonValue::Object(es) => insert_all(hs, keys_of(es@)),
            _ => hs,
        };
        union_keys(hs1, items.drop_first())
    }
}

proof fn lemma_insert_sorted(hs: Seq<Seq<char>>, k: Seq<char>)
    requires
        strictly_ascending(hs),
    ensures
        strictly_ascending(insert_sorted(hs, k)),
        forall|x: Seq<char>| #[trigger] insert_sorted(hs, k).contains(x) <==> (hs.contains(x) || x == k),
    decreases hs.len(),
{
    let r = insert_sorted(hs, k);
    if hs.len() == 0 {
        assert(r =~= seq![k]);
        assert forall|x: Seq<char>| #[trigger] r.contains(x) <==> (hs.contains(x) || x == k) by {
            if r.contains(x) {
                assert(r[0] == k);
            }
            if x == k {
                assert(r[0] == x);
            }
        }
    } else if hs[0] == k {
        assert forall|x: Seq<char>| #[trigger] r.contains(x) <==> (hs.contains(x) || x == k) by {
            if x == k {
                assert(hs[0] == x);
            }
        }
    } else if str_lt(k, hs[0]) {
        assert(r =~= seq![k] + hs);
        assert forall|i: int, j: int| 0 <= i < j < r.len() implies str_lt(#[trigger] r[i], #[trigger] r[j]) by {
            if i == 0 {
                if j > 1 {
                    lemma_str_lt_transitive(k, hs[0], hs[j - 1]);
                }
            } else {
                assert(r[i] == hs[i - 1] && r[j] == hs[j - 1]);
            }
        }
        assert forall|x: Seq<char>| #[trigger] r.contains(x) <==> (hs.contains(x) || x == k) by {
            if r.contains(x) {
                let i = choose|i: int| 0 <= i < r.len() && r[i] == x;
                if i > 0 {
                    assert(hs[i - 1] == x);
                }
            }
            if hs.contains(x) {
                let i = choose|i: int| 0 <= i < hs.len() && hs[i] == x;
                assert(r[i + 1] == x);
            }
            if x == k {
                assert(r[0] == x);
            }
        }
    } else {
        let t = hs.drop_first();
        assert forall|i: int, j: int| 0 <= i < j < t.len() implies str_lt(#[trigger] t[i], #[trigger] t[j]) by {
            assert(t[i] == hs[i + 1] && t[j] == hs[j + 1]);
        }
        lemma_insert_sorted(t, k);
        let rt = insert_sorted(t, k);
        assert(r =~= seq![hs[0]] + rt);
        lemma_str_lt_total(k, hs[0]);
        assert(str_lt(hs[0], k));
        assert forall|i: int, j: int| 0 <= i < j < r.len() implies str_lt(#[trigger] r[i], #[trigger] r[j]) by {
            if i == 0 {
                let y = r[j];
                assert(y == rt[j - 1]);
                assert(rt.contains(y));
                if y == k {
                } else {
                    let m = choose|m: int| 0 <= m < t.len() && t[m] == y;
                    assert(hs[m + 1] == y);
                    assert(str_lt(hs[0], hs[m + 1]));
                }
            } else {
                assert(r[i] == rt[i - 1] && r[j] == rt[j - 1]);
            }
        }
        assert forall|x: Seq<char>| #[trigger] r.contains(x) <==> (hs.contains(x) || x == k) by {
            if r.contains(x) {
                let i = choose|i: int| 0 <= i < r.len() && r[i] == x;
                if i == 0 {
                    assert(hs[0] == x);
                } else {
                    assert(rt[i - 1] == x);
                    assert(rt.contains(x));
                    if t.contains(x) {
                        let m = choose|m: int| 0 <= m < t.len() && t[m] == x;
                        assert(hs[m + 1] == x);
                    }
                }
            }
            if hs.contains(x) {
                let i = choose|i: int| 0 <= i < hs.len() && hs[i] == x;
                if i == 0 {
                    assert(r[0] == x);
                } else {
                    assert(t[i - 1] == x);
                    assert(t.contains(x));
                    assert(rt.contains(x));
                    let m = choose|m: int| 0 <= m < rt.len() && rt[m] == x;
                    assert(r[m + 1] == x);
                }
            }
            if x == k {
                assert(rt.contains(x));
                let m = choose|m: int| 0 <= m < rt.len() && rt[m] == x;
                assert(r[m + 1] == x);
            }
        }
    }
}

proof fn lemma_insert_all(hs: Seq<Seq<char>>, ks: Seq<Seq<char>>)
    requires
        strictly_ascending(hs),
    ensures
        strictly_ascending(insert_all(hs, ks)),
        forall|x: Seq<char>| #[trigger] insert_all(hs, ks).contains(x) <==> (hs.contains(x) || ks.contains(x)),
    decreases ks.len(),
{
    if ks.len() > 0 {
        lemma_insert_sorted(hs, ks[0]);
        let h1 = insert_sorted(hs, ks[0]);
        lemma_insert_all(h1, ks.drop_first());
        assert forall|x: Seq<char>| #[trigger] insert_all(hs, ks).contains(x) <==> (hs.contains(x)
            || ks.contains(x)) by {
            if ks.contains(x) {
                let i = choose|i: int| 0 <= i < ks.len() && ks[i] == x;
                if i > 0 {
                    assert(ks.drop_first()[i - 1] == x);
                }
            }
            if ks.drop_first().contains(x) {
                let i = choose|i: int| 0 <= i < ks.drop_first().len() && ks.drop_first()[i] == x;
                assert(ks[i + 1] == x);
            }
        }
    }
}

/// Whether `k` is a key of an object among `items`.
pub open spec fn some_object_has_key(items: Seq<JsonValue>, k: Seq<char>) -> bool {
    exists|i: int|
        0 <= i < items.len() && (#[trigger] items[i] matches JsonValue::Object(es) && keys_of(
            es@,
        ).contains(k))
}

proof fn lemma_union_keys(hs: Seq<Seq<char>>, items: Seq<JsonValue>)
    requires
        strictly_ascending(hs),
    ensures
        strictly_ascending(union_keys(hs, items)),
        forall|x: Seq<char>| #[trigger] union_keys(hs, items).contains(x) <==> (hs.contains(x)
            || some_object_has_key(items, x)),
    decreases items.len(),
{
    if items.len() > 0 {
        let hs1 = match items[0] {
            JsonValue::Object(es) => insert_all(hs, keys_of(es@)),
            _ => hs,
        };
        match items[0] {
            JsonValue::Object(es) => lemma_insert_all(hs, keys_of(es@)),
            _ => {},
        }
        let rest = items.drop_first();
        lemma_union_keys(hs1, rest);
        assert forall|x: Seq<char>| #[trigger] union_keys(hs, items).contains(x) <==> (hs.contains(x)
            || some_object_has_key(items, x)) by {
            if some_object_has_key(rest, x) {
                let i = choose|i: int|
                    0 <= i < rest.len() && (#[trigger] rest[i] matches JsonValue::Object(es)
                        && keys_of(es@).contains(x));
                assert(items[i + 1] == rest[i]);
            }
            if some_object_has_key(items, x) {
                let i = choose|i: int|
                    0 <= i < items.len() && (#[trigger] items[i] matches JsonValue::Object(es)
                        && keys_of(es@).contains(x));
                if i > 0 {
                    assert(rest[i - 1] == items[i]);
                }
            }
            if items[0] matches JsonValue::Object(es) && keys_of(es@).contains(x) {
                assert(some_object_has_key(items, x));
            }
        }
    }
}

/// The header row of a CSV table of objects is the set of their keys: it
/// lists each key of each object once, in ascending order, and nothing
/// else.
pub proof fn lemma_header_row_is_sorted_key_set(items: Seq<JsonValue>)
    ensures
        strictly_ascending(union_keys(Seq::empty(), items)),
        forall|x: Seq<char>| #[trigger] union_keys(Seq::empty(), items).contains(x)
            <==> some_object_has_key(items, x),
{
    lemma_union_keys(Seq::empty(), items);
}

/// The value under key `k`, if any.
pub open spec fn lookup(es: Seq<(String, JsonValue)>, k: Seq<char>) -> Option<JsonValue>
    decreases es.len(),
{
    if es.len() == 0 {
        None
    } else if es[0].0@ == k {
        Some(es[0].1)
    } else {
        lookup(es.drop_first(), k)
    }
}

/// The cell under key `k` of an object's entries (empty when missing).
pub open spec fn lookup_text(es: Seq<(String, JsonValue)>, k: Seq<char>) -> Seq<char> {
    match lookup(es, k) {
        Some(x) => cell_text(x),
        None => Seq::empty(),
    }
}

pub open spec fn entry_cells(es: Seq<(String, JsonValue)>) -> Seq<Seq<char>> {
    es.map_values(|e: (String, JsonValue)| cell_text(e.1))
}

pub open spec fn single_cells(items: Seq<JsonValue>) -> Seq<Seq<Seq<char>>> {
    items.map_values(|it: JsonValue| seq![cell_text(it)])
}

pub open spec fn item_rows(items: Seq<JsonValue>, hs: Seq<Seq<char>>) -> Seq<Seq<Seq<char>>> {
    items.map_values(|it: JsonValue| item_row(it, hs))
}

/// The record of one array item under the header `hs`: an object gives
/// its cell under each header (empty when missing), anything else one
/// cell.
pub open spec fn item_row(it: JsonValue, hs: Seq<Seq<char>>) -> Seq<Seq<char>> {
    match it {
        JsonValue::Object(es) => hs.map_values(|h: Seq<char>| lookup_text(es@, h)),
        _ => seq![cell_text(it)],
    }
}

/// The CSV records (header first) a value is written as:
/// - an empty array: nothing;
/// - an array: the sorted union of its objects' keys as header and one
///   record per item, or, when no item is an object, the header `value`
///   and one cell per item;
/// - an object: its keys, then its cells;
/// - a scalar: the header `value`, then its cell.
pub open spec fn csv_table(v: JsonValue) -> Seq<Seq<Seq<char>>> {
    match v {
        JsonValue::Array(items) => if items@.len() == 0 {
            Seq::empty()
        } else {
            let hs = union_keys(Seq::empty(), items@);
            if hs.len() == 0 {
                seq![seq!["value"@]] + single_cells(items@)
            } else {
                seq![hs] + item_rows(items@, hs)
            }
        },
        JsonValue::Object(es) => seq![keys_of(es@), entry_cells(es@)],
        _ => seq![seq!["value"@], seq![cell_text(v)]],
    }
}

/// Whether the layout has a header of keys (an array with object items,
/// or an object) rather than the single `value` column.
pub open spec fn keyed_table(v: JsonValue) -> bool {
    match v {
        JsonValue::Array(items) => union_keys(Seq::empty(), items@).len() > 0,
        JsonValue::Object(_) => true,
        _ => false,
    }
}

pub open spec fn record_views(r: Seq<Vec<String>>) -> Seq<Seq<Seq<char>>> {
    r.map_values(|row: Vec<String>| string_views(row@))
}

pub fn cell_string(v: &JsonValue) -> (r: String)
    ensures
        r@ == cell_text(*v),
{
    match v {
        JsonValue::Null => String::new(),
        JsonValue::Bool(b) => if *b {
            String::from_str("true")
        } else {
            String::from_str("false")
        },
        JsonValue::Number(t) => t.clone(),
        JsonValue::Str(s) => s.clone(),
        _ => compact_json(v),
    }
}

proof fn lemma_insert_sorted_prefix(hs: Seq<Seq<char>>, k: Seq<char>, i: int)
    requires
        0 <= i <= hs.len(),
        forall|j: int| 0 <= j < i ==> #[trigger] hs[j] != k && !str_lt(k, hs[j]),
    ensures
        insert_sorted(hs, k) == hs.take(i) + insert_sorted(hs.skip(i), k),
    decreases i,
{
    if i > 0 {
        lemma_insert_sorted_prefix(hs.drop_first(), k, i - 1);
        assert(hs.drop_first().take(i - 1) =~= hs.take(i).drop_first());
        assert(hs.drop_first().skip(i - 1) =~= hs.skip(i));
        assert(hs[0] != k && !str_lt(k, hs[0]));
        assert(seq![hs[0]] + (hs.take(i).drop_first() + insert_sorted(hs.skip(i), k)) =~= hs.take(i)
            + insert_sorted(hs.skip(i), k));
    } else {
        assert(hs.skip(0) =~= hs);
        assert(hs.take(0) + insert_sorted(hs, k) =~= insert_sorted(hs, k));
    }
}

/// Insert `k` into the ascending header list `hs` unless it is there.
fn insert_header(hs: &mut Vec<String>, k: &String)
    ensures
        string_views(final(hs)@) == insert_sorted(string_views(old(hs)@), k@),
{
    let ghost old_v = string_views(hs@);
    let kc = chars_of(k.as_str());
    let mut i: usize = 0;
    while i < hs.len()
        invariant
            old_v == string_views(hs@),
            old_v == string_views(old(hs)@),
            i <= hs@.len(),
            kc@ == k@,
            forall|j: int| 0 <= j < i ==> #[trigger] old_v[j] != k@ && !str_lt(k@, old_v[j]),
        decreases hs@.len() - i,
    {
        assert(old_v[i as int] == hs@[i as int]@);
        if hs[i] == *k {
            proof {
                lemma_insert_sorted_prefix(old_v, k@, i as int);
                assert(old_v.skip(i as int)[0] == k@);
                assert(old_v.take(i as int) + old_v.skip(i as int) =~= old_v);
            }
            return;
        }
        let hc = chars_of(hs[i].as_str());
        if chars_less(kc.as_slice(), hc.as_slice()) {
            proof {
                lemma_insert_sorted_prefix(old_v, k@, i as int);
                assert(old_v.skip(i as int)[0] == old_v[i as int]);
            }
            hs.insert(i, k.clone());
            assert(string_views(hs@) =~= old_v.take(i as int) + (seq![k@] + old_v.skip(i as int)));
            return;
        }
        i = i + 1;
    }
    proof {
        lemma_insert_sorted_prefix(old_v, k@, i as int);
        assert(old_v.skip(i as int) =~= Seq::<Seq<char>>::empty());
        assert(old_v.take(i as int) =~= old_v);
    }
    hs.push(k.clone());
    assert(string_views(hs@) =~= old_v + seq![k@]);
}

/// The sorted union of the keys of every object among `items`.
pub fn header_union(items: &Vec<JsonValue>) -> (r: Vec<String>)
    ensures
        string_views(r@) == union_keys(Seq::empty(), items@),
{
    let mut hs: Vec<String> = Vec::new();
    let mut i: usize = 0;
    assert(items@.skip(0) =~= items@);
    assert(string_views(hs@) =~= Seq::<Seq<char>>::empty());
    while i < items.len()
        invariant
            i <= items@.len(),
            union_keys(Seq::empty(), items@) == union_keys(string_views(hs@), items@.skip(i as int)),
        decreases items@.len() - i,
    {
        let ghost rest = items@.skip(i as int);
        assert(rest[0] == items@[i as int]);
        assert(rest.drop_first() =~= items@.skip(i + 1));
        match &items[i] {
            JsonValue::Object(es) => {
                let ghost ks = keys_of(es@);
                let mut k: usize = 0;
                let ghost h0 = string_views(hs@);
                assert(ks.skip(0) =~= ks);
                while k < es.len()
                    invariant
                        k <= es@.len(),
                        ks == keys_of(es@),
                        insert_all(h0, ks) == insert_all(string_views(hs@), ks.skip(k as int)),
                    decreases es@.len() - k,
                {
                    let ghost krest = ks.skip(k as int);
                    assert(krest[0] == es@[k as int].0@);
                    assert(krest.drop_first() =~= ks.skip(k + 1));
                    insert_header(&mut hs, &es[k].0);
                    k = k + 1;
                }
                assert(ks.skip(es@.len() as int) =~= Seq::<Seq<char>>::empty());
            },
            _ => {},
        }
        i = i + 1;
    }
    assert(items@.skip(items@.len() as int) =~= Seq::<JsonValue>::empty());
    hs
}

proof fn lemma_lookup_skip(es: Seq<(String, JsonValue)>, h: Seq<char>, i: int)
    requires
        0 <= i <= es.len(),
        forall|j: int| 0 <= j < i ==> (#[trigger] es[j]).0@ != h,
    ensures
        lookup(es, h) == lookup(es.skip(i), h),
    decreases i,
{
    if i > 0 {
        lemma_lookup_skip(es.drop_first(), h, i - 1);
        assert(es.drop_first().skip(i - 1) =~= es.skip(i));
        assert(es[0].0@ != h);
    } else {
        assert(es.skip(0) =~= es);
    }
}

/// The cell under key `h` of an object's entries (empty when missing).
fn lookup_cell(es: &Vec<(String, JsonValue)>, h: &String) -> (r: String)
    ensures
        r@ == match lookup(es@, h@) {
            Some(x) => cell_text(x),
            None => Seq::<char>::empty(),
        },
{
    let mut i: usize = 0;
    while i < es.len()
        invariant
            i <= es@.len(),
            forall|j: int| 0 <= j < i ==> (#[trigger] es@[j]).0@ != h@,
        decreases es@.len() - i,
    {
        if es[i].0 == *h {
            proof {
                lemma_lookup_skip(es@, h@, i as int);
                assert(es@.skip(i as int)[0] == es@[i as int]);
            }
            return cell_string(&es[i].1);
        }
        i = i + 1;
    }
    proof {
        lemma_lookup_skip(es@, h@, i as int);
        assert(es@.skip(i as int) =~= Seq::<(String, JsonValue)>::empty());
    }
    String::new()
}

fn one_cell(c: String) -> (r: Vec<String>)
    ensures
        string_views(r@) == seq![c@],
{
    let mut row: Vec<String> = Vec::new();
    row.push(c);
    assert(string_views(row@) =~= seq![c@]);
    row
}

fn item_record(it: &JsonValue, hs: &Vec<String>) -> (r: Vec<String>)
    ensures
        string_views(r@) == item_row(*it, string_views(hs@)),
{
    match it {
        JsonValue::Object(es) => {
            let mut row: Vec<String> = Vec::new();
            let mut k: usize = 0;
            while k < hs.len()
                invariant
                    k <= hs@.len(),
                    row@.len() == k,
                    forall|j: int| 0 <= j < k ==> (#[trigger] row@[j])@ == lookup_text(es@, hs@[j]@),
                decreases hs@.len() - k,
            {
                let c = lookup_cell(es, &hs[k]);
                row.push(c);
                k = k + 1;
            }
            assert(string_views(row@) =~= item_row(*it, string_views(hs@)));
            row
        },
        _ => one_cell(cell_string(it)),
    }
}

/// The CSV records a value is written as (see `csv_table`).
pub fn csv_records(v: &JsonValue) -> (r: Vec<Vec<String>>)
    ensures
        record_views(r@) == csv_table(*v),
{
    let mut out: Vec<Vec<String>> = Vec::new();
    match v {
        JsonValue::Array(items) => {
            if items.len() == 0 {
                assert(record_views(out@) =~= csv_table(*v));
                return out;
            }
            let hs = header_union(items);
            let keyed = hs.len() > 0;
            if keyed {
                let ghost hv = string_views(hs@);
                out.push(header_copy(&hs));
            } else {
                out.push(one_cell(String::from_str("value")));
            }
            let mut i: usize = 0;
            while i < items.len()
                invariant
                    i <= items@.len(),
                    keyed == (string_views(hs@).len() > 0),
                    string_views(hs@) == union_keys(Seq::empty(), items@),
                    out@.len() == i + 1,
                    string_views(out@[0]@) == if keyed {
                        string_views(hs@)
                    } else {
                        seq!["value"@]
                    },
                    forall|j: int| 0 <= j < i ==> string_views((#[trigger] out@[j + 1])@) == if keyed {
                        item_row(items@[j], string_views(hs@))
                    } else {
                        seq![cell_text(items@[j])]
                    },
                decreases items@.len() - i,
            {
                let row = if keyed {
                    item_record(&items[i], &hs)
                } else {
                    one_cell(cell_string(&items[i]))
                };
                out.push(row);
                i = i + 1;
            }
            proof {
                let t = csv_table(*v);
                assert forall|j: int| 0 <= j < out@.len() implies record_views(out@)[j] == t[j] by {
                    if j > 0 {
                        assert(string_views(out@[(j - 1) + 1]@) == record_views(out@)[j]);
                    }
                }
                assert(record_views(out@) =~= csv_table(*v));
            }
            out
        },
        JsonValue::Object(es) => {
            let mut keys: Vec<String> = Vec::new();
            let mut cells: Vec<String> = Vec::new();
            let mut k: usize = 0;
            while k < es.len()
                invariant
                    k <= es@.len(),
                    keys@.len() == k,
                    cells@.len() == k,
                    forall|j: int| 0 <= j < k ==> (#[trigger] keys@[j])@ == es@[j].0@,
                    forall|j: int| 0 <= j < k ==> (#[trigger] cells@[j])@ == cell_text(es@[j].1),
                decreases es@.len() - k,
            {
                keys.push(es[k].0.clone());
                cells.push(cell_string(&es[k].1));
                k = k + 1;
            }
            assert(string_views(keys@) =~= keys_of(es@));
            assert(string_views(cells@) =~= entry_cells(es@));
            out.push(keys);
            out.push(cells);
            assert(record_views(out@) =~= csv_table(*v));
            out
        },
        _ => {
            out.push(one_cell(String::from_str("value")));
            out.push(one_cell(cell_string(v)));
            assert(record_views(out@) =~= csv_table(*v));
            out
        },
    }
}

fn header_copy(hs: &Vec<String>) -> (r: Vec<String>)
    ensures
        string_views(r@) == string_views(hs@),
{
    let mut out: Vec<String> = Vec::new();
    let mut i: usize = 0;
    while i < hs.len()
        invariant
            i <= hs@.len(),
            string_views(out@) == string_views(hs@).take(i as int),
        decreases hs@.len() - i,
    {
        let c = hs[i].clone();
        assert(c@ == hs@[i as int]@);
        let ghost before = out@;
        out.push(c);
        assert(string_views(out@) =~= string_views(before).push(c@));
        assert(string_views(out@) =~= string_views(hs@).take(i + 1));
        i = i + 1;
    }
    assert(string_views(hs@).take(hs@.len() as int) =~= string_views(hs@));
    out
}

// ---------------------------------------------------------------------
// Writing CSV (through the csv crate)
// ---------------------------------------------------------------------

/// A csv writer (`has_headers(true)`, default settings) into a byte
/// vector. What it has been given is named `csv_rows_written`.
#[verifier::external_body]
pub struct CsvSink {
    w: csv::Writer<Vec<u8>>,
}

/// The records a `CsvSink` has accepted so far, each as its fields.
pub uninterp spec fn csv_rows_written(s: CsvSink) -> Seq<Seq<Seq<char>>>;

/// Whether a `CsvSink` has ever refused a record. A refused record leaves
/// its fields in the writer's buffer, so nothing is stated of a sink
/// after a refusal.
pub uninterp spec fn csv_sink_refused(s: CsvSink) -> bool;

/// The bytes the csv writer produces for the given records, in order.
pub uninterp spec fn csv_bytes_of(rows: Seq<Seq<Seq<char>>>) -> Seq<u8>;

/// A csv error, carried unread.
#[verifier::external_type_specification]
#[verifier::external_body]
pub struct ExCsvError(csv::Error);

/// A UTF-8 decoding error, carried unread.
#[verifier::external_type_specification]
#[verifier::external_body]
pub struct ExFromUtf8Error(std::string::FromUtf8Error);

/// Calls `csv::WriterBuilder::new().has_headers(true).from_writer` on an
/// empty byte vector: nothing has been written yet.
#[verifier::external_body]
fn new_csv_sink() -> (r: CsvSink)
    ensures
        csv_rows_written(r) == Seq::<Seq<Seq<char>>>::empty(),
        !csv_sink_refused(r),
{
    CsvSink { w: csv::WriterBuilder::new().has_headers(true).from_writer(vec![]) }
}

/// Calls `csv::Writer::write_record`. The writer is not `flexible`, so
/// (as `check_field_count` in the crate's source shows) on a sink that
/// has never refused a record, a record is refused exactly when an
/// earlier record had another number of fields; writing into a byte
/// vector cannot fail otherwise. An accepted record is appended. A
/// refusal leaves the record's fields in the buffer and marks the sink
/// refused; nothing more is stated of a refused sink.
#[verifier::external_body]
fn write_csv_record(s: &mut CsvSink, rec: &Vec<String>) -> (r: Result<(), csv::Error>)
    ensures
        !csv_sink_refused(*old(s)) ==> (r is Ok <==> (csv_rows_written(*old(s)).len() == 0
            || csv_rows_written(*old(s))[0].len() == rec@.len())),
        !csv_sink_refused(*old(s)) && r is Ok ==> !csv_sink_refused(*final(s))
            && csv_rows_written(*final(s)) == csv_rows_written(*old(s)).push(string_views(rec@)),
        r is Err ==> csv_sink_refused(*final(s)),
{
    s.w.write_record(rec)
}

/// Calls `csv::Writer::into_inner`, which flushes into the byte vector
/// and hands it back. For a sink that never refused a record these are
/// the bytes named `csv_bytes_of` of the records written, and flushing
/// into a byte vector does not fail; the error text of the crate's
/// `IntoInnerError` would be handed back as is. Nothing is stated of a
/// refused sink.
#[verifier::external_body]
fn finish_csv(s: CsvSink) -> (r: Result<Vec<u8>, String>)
    ensures
        !csv_sink_refused(s) ==> r is Ok,
        !csv_sink_refused(s) ==> (r matches Ok(b) ==> b@ == csv_bytes_of(csv_rows_written(s))),
{
    match s.w.into_inner() {
        Ok(b) => Ok(b),
        Err(e) => Err(e.to_string()),
    }
}

/// The `Display` text of a csv error.
#[verifier::external_body]
fn csv_error_text(e: &csv::Error) -> (r: String) {
    e.to_string()
}

/// Calls `String::from_utf8`: it succeeds exactly on valid UTF-8, with the
/// decoded text.
#[verifier::external_body]
fn utf8_string(bytes: Vec<u8>) -> (r: Result<String, std::string::FromUtf8Error>)
    ensures
        r is Ok <==> valid_utf8(bytes@),
        r matches Ok(s) ==> s@ == decode_utf8(bytes@),
{
    String::from_utf8(bytes)
}

/// The `Display` text of a UTF-8 error.
#[verifier::external_body]
fn utf8_error_text(e: &std::string::FromUtf8Error) -> (r: String) {
    e.to_string()
}

/// Whether every record has as many fields as the first.
pub open spec fn uniform_width(t: Seq<Seq<Seq<char>>>) -> bool {
    forall|i: int| 0 <= i < t.len() ==> #[trigger] t[i].len() == t[0].len()
}

/// Whether the value is an array that mixes items that are not objects
/// with objects under a header of more than one key: the one layout whose
/// records differ in width.
pub open spec fn ragged_layout(v: JsonValue) -> bool {
    v matches JsonValue::Array(items) && union_keys(Seq::empty(), items@).len() > 1 && exists|i: int|
        0 <= i < items@.len() && !(#[trigger] items@[i] is Object)
}

/// The CSV records of a value all have the same width, except in the
/// ragged layout; so writing CSV is refused exactly there.
pub proof fn lemma_csv_width(v: JsonValue)
    ensures
        uniform_width(csv_table(v)) <==> !ragged_layout(v),
{
    let t = csv_table(v);
    match v {
        JsonValue::Array(items) => {
            if items@.len() > 0 {
                let hs = union_keys(Seq::empty(), items@);
                if hs.len() == 0 {
                    assert forall|i: int| 0 <= i < t.len() implies #[trigger] t[i].len() == t[0].len() by {
                        if i > 0 {
                            assert(t[i] == seq![cell_text(items@[i - 1])]);
                        }
                    }
                } else {
                    assert(t[0] == hs);
                    if ragged_layout(v) {
                        let i = choose|i: int| 0 <= i < items@.len() && !(#[trigger] items@[i] is Object);
                        assert(t[i + 1] == item_row(items@[i], hs));
                        assert(t[i + 1].len() == 1);
                    } else {
                        assert forall|i: int| 0 <= i < t.len() implies #[trigger] t[i].len() == t[0].len() by {
                            if i > 0 {
                                assert(t[i] == item_row(items@[i - 1], hs));
                                if !(items@[i - 1] is Object) {
                                    assert(hs.len() <= 1);
                                }
                            }
                        }
                    }
                }
            }
        },
        JsonValue::Object(es) => {
            assert(t[0].len() == t[1].len());
            assert forall|i: int| 0 <= i < t.len() implies #[trigger] t[i].len() == t[0].len() by {}
        },
        _ => {
            assert forall|i: int| 0 <= i < t.len() implies #[trigger] t[i].len() == t[0].len() by {}
        },
    }
}

/// The message prefix when the csv writer refuses a record after the
/// first.
pub open spec fn record_error_prefix(v: JsonValue) -> Seq<char> {
    if keyed_table(v) {
        "CSV write record error: "@
    } else {
        "CSV write row error: "@
    }
}

/// What writing `v` as CSV gives: the empty text for an empty table; a
/// refusal when the records differ in width; else the csv crate's bytes
/// for the table, as text when they are valid UTF-8.
pub open spec fn csv_write_outcome(v: JsonValue, r: Result<String, String>) -> bool {
    let t = csv_table(v);
    &&& t.len() == 0 ==> (r matches Ok(s) && s@.len() == 0)
    &&& t.len() > 0 && !uniform_width(t) ==> (r matches Err(m) && starts_with(
        m@,
        record_error_prefix(v),
    ))
    &&& t.len() > 0 && uniform_width(t) ==> {
        &&& (r is Ok <==> valid_utf8(csv_bytes_of(t)))
        &&& (r matches Ok(s) ==> s@ == decode_utf8(csv_bytes_of(t)))
        &&& (r matches Err(m) ==> starts_with(m@, "CSV utf-8 error: "@))
    }
}

/// Write a value as CSV text: the records of `csv_records`, header first,
/// as the csv crate lays them out; an empty array gives the empty text.
/// The writer refuses a table whose records differ in width (an array
/// mixing objects and other items under more than one key).
pub fn value_to_csv(v: &JsonValue) -> (r: Result<String, String>)
    ensures
        csv_write_outcome(*v, r),
{
    let records = csv_records(v);
    let ghost t = csv_table(*v);
    if records.len() == 0 {
        return Ok(String::new());
    }
    let keyed = match v {
        JsonValue::Array(items) => header_union(items).len() > 0,
        JsonValue::Object(_) => true,
        _ => false,
    };
    assert(keyed == keyed_table(*v));
    let mut w = new_csv_sink();
    let mut i: usize = 0;
    while i < records.len()
        invariant
            i <= records@.len(),
            t == record_views(records@),
            t == csv_table(*v),
            t.len() > 0,
            keyed == keyed_table(*v),
            csv_rows_written(w) == t.take(i as int),
            !csv_sink_refused(w),
            forall|j: int| 0 <= j < i ==> #[trigger] t[j].len() == t[0].len(),
        decreases records@.len() - i,
    {
        assert(t[i as int] == string_views(records@[i as int]@));
        match write_csv_record(&mut w, &records[i]) {
            Ok(()) => {},
            Err(e) => {
                proof {
                    assert(i > 0);
                    assert(t[i as int].len() != t[0].len());
                }
                let prefix = if i == 0 {
                    if keyed {
                        "CSV write headers error: "
                    } else {
                        "CSV write header error: "
                    }
                } else {
                    if keyed {
                        "CSV write record error: "
                    } else {
                        "CSV write row error: "
                    }
                };
                return Err(with_detail(prefix, csv_error_text(&e)));
            },
        }
        assert(t.take(i as int).push(t[i as int]) =~= t.take(i + 1));
        i = i + 1;
    }
    assert(t.take(records@.len() as int) =~= t);
    let bytes = match finish_csv(w) {
        Ok(b) => b,
        Err(m) => return Err(with_detail("CSV finish error: ", m)),
    };
    match utf8_string(bytes) {
        Ok(s) => Ok(s),
        Err(e) => Err(with_detail("CSV utf-8 error: ", utf8_error_text(&e))),
    }
}

// ---------------------------------------------------------------------
// Reading CSV (through the csv crate)
// ---------------------------------------------------------------------

/// Which read of the CSV text failed.
pub enum CsvReadFailure {
    Headers(csv::Error),
    Record(csv::Error),
}

/// What the csv crate reads from the text with a header row: the header
/// fields and the fields of every record, or `None` when it reports an
/// error.
pub uninterp spec fn csv_read_of(text: Seq<char>) -> Option<(Seq<Seq<char>>, Seq<Seq<Seq<char>>>)>;

/// Whether the csv crate reads a header row from the text without error.
pub uninterp spec fn csv_headers_ok(text: Seq<char>) -> bool;

/// Reads the text with `csv::ReaderBuilder::new().has_headers(true)`:
/// `headers()`, then every record of `records()` as its fields; the
/// result is named `csv_read_of`. Stops at the first record error.
#[verifier::external_body]
fn read_csv(text: &str) -> (r: Result<(Vec<String>, Vec<Vec<String>>), CsvReadFailure>)
    ensures
        r matches Ok((h, rows)) ==> csv_read_of(text@) == Some((string_views(h@), record_views(rows@))),
        r is Err ==> csv_read_of(text@) is None,
        r matches Err(CsvReadFailure::Headers(_)) <==> !csv_headers_ok(text@),
{
    let mut rdr = csv::ReaderBuilder::new().has_headers(true).from_reader(text.as_bytes());
    let headers = rdr.headers().map_err(CsvReadFailure::Headers)?.iter().map(String::from).collect();
    let rows: Result<Vec<Vec<String>>, csv::Error> =
        rdr.records().map(|r| r.map(|rec| rec.iter().map(String::from).collect())).collect();
    Ok((headers, rows.map_err(CsvReadFailure::Record)?))
}

/// A scalar value seen by its texts (what a CSV cell can become).
pub enum CellView {
    Null,
    Bool(bool),
    Number(Seq<char>),
    Str(Seq<char>),
    Composite,
}

pub open spec fn shallow(v: JsonValue) -> CellView {
    match v {
        JsonValue::Null => CellView::Null,
        JsonValue::Bool(b) => CellView::Bool(b),
        JsonValue::Number(t) => CellView::Number(t@),
        JsonValue::Str(s) => CellView::Str(s@),
        _ => CellView::Composite,
    }
}

pub open spec fn opt_view(o: Option<String>) -> Option<Seq<char>> {
    match o {
        Some(s) => Some(s@),
        None => None,
    }
}

/// The value a CSV field becomes: an integer, else a finite float (whose
/// JSON number text `float` gives, when the field is one), else
/// `true`/`TRUE` or `false`/`FALSE`, else the text itself.
pub open spec fn cell_kind(field: Seq<char>, float: Option<Seq<char>>) -> CellView {
    match parse_i64(field) {
        Some(i) => CellView::Number(int_text(i)),
        None => match float {
            Some(t) => CellView::Number(t),
            None => if field == "true"@ || field == "TRUE"@ {
                CellView::Bool(true)
            } else if field == "false"@ || field == "FALSE"@ {
                CellView::Bool(false)
            } else {
                CellView::Str(field)
            },
        },
    }
}

proof fn lemma_word_is_not_integer(f: Seq<char>)
    requires
        f.len() > 0,
        f[0] != '-' && f[0] != '+',
        !('0' <= f[0] && f[0] <= '9'),
    ensures
        parse_i64(f) is None,
{
}

/// Booleans in CSV: a field that is neither an integer nor a float
/// becomes a boolean exactly when it is `true`, `TRUE`, `false` or
/// `FALSE`, true for the first two and false for the other two; any other
/// such field stays text.
pub proof fn lemma_boolean_cells(f: Seq<char>)
    ensures
        parse_i64(f) is None ==> (cell_kind(f, None) is Bool <==> (f == "true"@ || f == "TRUE"@ || f
            == "false"@ || f == "FALSE"@)),
        f == "true"@ || f == "TRUE"@ ==> cell_kind(f, None) == CellView::Bool(true),
        f == "false"@ || f == "FALSE"@ ==> cell_kind(f, None) == CellView::Bool(false),
        parse_i64(f) is None && !(cell_kind(f, None) is Bool) ==> cell_kind(f, None) == CellView::Str(
            f,
        ),
{
    reveal_strlit("true");
    reveal_strlit("TRUE");
    reveal_strlit("false");
    reveal_strlit("FALSE");
    if f == "true"@ || f == "TRUE"@ || f == "false"@ || f == "FALSE"@ {
        lemma_word_is_not_integer(f);
    }
}

/// Numbers in CSV: a field that reads as an integer becomes that integer
/// (in its canonical decimal text), whatever float reading it also has; a
/// field that is not an integer but reads as a finite float becomes the
/// float's JSON number text; neither kind is ever text or a boolean.
pub proof fn lemma_number_cells(f: Seq<char>, float: Option<Seq<char>>)
    ensures
        parse_i64(f) matches Some(i) ==> cell_kind(f, float) == CellView::Number(int_text(i))
            && cell_kind(f, float) == cell_kind(f, None),
        parse_i64(f) is None ==> (float matches Some(x) ==> cell_kind(f, float) == CellView::Number(x)),
        parse_i64(f) is Some || float is Some ==> cell_kind(f, float) is Number,
{
}

/// The value of a CSV field, given the JSON number text of the field
/// read as a finite floating-point number (`None` when it is not one).
pub fn cell_value(field: &String, float: Option<String>) -> (r: JsonValue)
    ensures
        shallow(r) == cell_kind(field@, opt_view(float)),
{
    let fc = chars_of(field.as_str());
    match parse_i64_chars(fc.as_slice()) {
        Some(i) => {
            let t = int_chars(i);
            JsonValue::Number(chars_to_string(t.as_slice()))
        },
        None => match float {
            Some(t) => JsonValue::Number(t),
            None => {
                if crate::text::chars_equal_str(fc.as_slice(), "true") || crate::text::chars_equal_str(
                    fc.as_slice(),
                    "TRUE",
                ) {
                    JsonValue::Bool(true)
                } else if crate::text::chars_equal_str(fc.as_slice(), "false")
                    || crate::text::chars_equal_str(fc.as_slice(), "FALSE") {
                    JsonValue::Bool(false)
                } else {
                    JsonValue::Str(field.clone())
                }
            },
        },
    }
}

pub open spec fn entries_shallow(es: Seq<(String, JsonValue)>) -> Seq<(Seq<char>, CellView)> {
    es.map_values(|e: (String, JsonValue)| (e.0@, shallow(e.1)))
}

/// Insert `k -> v` into key-ordered entries, replacing the value of an
/// existing `k` (an ordered-map insertion).
pub open spec fn map_insert(m: Seq<(Seq<char>, CellView)>, k: Seq<char>, v: CellView) -> Seq<
    (Seq<char>, CellView),
>
    decreases m.len(),
{
    if m.len() == 0 {
        seq![(k, v)]
    } else if m[0].0 == k {
        m.update(0, (k, v))
    } else if str_lt(k, m[0].0) {
        seq![(k, v)] + m
    } else {
        seq![m[0]] + map_insert(m.drop_first(), k, v)
    }
}

/// The header of field `i`, or `column` past the end of the header row.
pub open spec fn header_at(hs: Seq<Seq<char>>, i: int) -> Seq<char> {
    if 0 <= i < hs.len() {
        hs[i]
    } else {
        "column"@
    }
}

/// The object entries of record `fields` from field `i` on, each field
/// inserted under its header (`floats` holds each field's float text).
pub open spec fn entries_from(
    acc: Seq<(Seq<char>, CellView)>,
    hs: Seq<Seq<char>>,
    fields: Seq<Seq<char>>,
    floats: Seq<Option<Seq<char>>>,
    i: int,
) -> Seq<(Seq<char>, CellView)>
    decreases fields.len() - i,
{
    if i < 0 || i >= fields.len() {
        acc
    } else {
        entries_from(
            map_insert(acc, header_at(hs, i), cell_kind(fields[i], floats[i])),
            hs,
            fields,
            floats,
            i + 1,
        )
    }
}

pub open spec fn record_entries(
    hs: Seq<Seq<char>>,
    fields: Seq<Seq<char>>,
    floats: Seq<Option<Seq<char>>>,
) -> Seq<(Seq<char>, CellView)> {
    entries_from(Seq::empty(), hs, fields, floats, 0)
}

pub open spec fn opt_views(v: Seq<Option<String>>) -> Seq<Option<Seq<char>>> {
    v.map_values(|o: Option<String>| opt_view(o))
}

proof fn lemma_map_insert_prefix(m: Seq<(Seq<char>, CellView)>, k: Seq<char>, v: CellView, i: int)
    requires
        0 <= i <= m.len(),
        forall|j: int| 0 <= j < i ==> (#[trigger] m[j]).0 != k && !str_lt(k, m[j].0),
    ensures
        map_insert(m, k, v) == m.take(i) + map_insert(m.skip(i), k, v),
    decreases i,
{
    if i > 0 {
        lemma_map_insert_prefix(m.drop_first(), k, v, i - 1);
        assert(m.drop_first().take(i - 1) =~= m.take(i).drop_first());
        assert(m.drop_first().skip(i - 1) =~= m.skip(i));
        assert(m[0].0 != k && !str_lt(k, m[0].0));
        assert(seq![m[0]] + (m.take(i).drop_first() + map_insert(m.skip(i), k, v)) =~= m.take(i)
            + map_insert(m.skip(i), k, v));
    } else {
        assert(m.skip(0) =~= m);
        assert(m.take(0) + map_insert(m, k, v) =~= map_insert(m, k, v));
    }
}

/// The keys of key-ordered entries.
pub open spec fn entry_keys(m: Seq<(Seq<char>, CellView)>) -> Seq<Seq<char>> {
    m.map_values(|e: (Seq<char>, CellView)| e.0)
}

#[verifier::spinoff_prover]
#[verifier::rlimit(80)]
proof fn lemma_map_insert(m: Seq<(Seq<char>, CellView)>, k: Seq<char>, v: CellView)
    requires
        strictly_ascending(entry_keys(m)),
    ensures
        strictly_ascending(entry_keys(map_insert(m, k, v))),
        forall|x: Seq<char>, c: CellView| #[trigger] map_insert(m, k, v).contains((x, c)) <==> ((x
            == k && c == v) || (x != k && m.contains((x, c)))),
    decreases m.len(),
{
    let r = map_insert(m, k, v);
    let km = entry_keys(m);
    if m.len() == 0 {
        assert(r =~= seq![(k, v)]);
        assert forall|x: Seq<char>, c: CellView| #[trigger] r.contains((x, c)) <==> ((x == k && c == v)
            || (x != k && m.contains((x, c)))) by {
            if x == k && c == v {
                assert(r[0] == (x, c));
            }
        }
    } else if m[0].0 == k {
        assert(r =~= m.update(0, (k, v)));
        assert forall|i: int, j: int| 0 <= i < j < entry_keys(r).len() implies str_lt(
            #[trigger] entry_keys(r)[i],
            #[trigger] entry_keys(r)[j],
        ) by {
            assert(entry_keys(r)[i] == km[i] && entry_keys(r)[j] == km[j]);
        }
        assert forall|x: Seq<char>, c: CellView| #[trigger] r.contains((x, c)) <==> ((x == k && c == v)
            || (x != k && m.contains((x, c)))) by {
            if r.contains((x, c)) {
                let i = choose|i: int| 0 <= i < r.len() && r[i] == (x, c);
                if i > 0 {
                    assert(m[i] == (x, c));
                    assert(km[i] == x);
                    lemma_str_lt_irreflexive(k);
                    assert(str_lt(km[0], km[i]));
                }
            }
            if x == k && c == v {
                assert(r[0] == (x, c));
            }
            if x != k && m.contains((x, c)) {
                let i = choose|i: int| 0 <= i < m.len() && m[i] == (x, c);
                assert(i != 0);
                assert(r[i] == (x, c));
            }
        }
    } else if str_lt(k, m[0].0) {
        assert(r =~= seq![(k, v)] + m);
        assert forall|i: int, j: int| 0 <= i < j < entry_keys(r).len() implies str_lt(
            #[trigger] entry_keys(r)[i],
            #[trigger] entry_keys(r)[j],
        ) by {
            if i == 0 {
                assert(entry_keys(r)[j] == km[j - 1]);
                if j > 1 {
                    assert(km[0] == m[0].0);
                    lemma_str_lt_transitive(k, km[0], km[j - 1]);
                }
            } else {
                assert(entry_keys(r)[i] == km[i - 1] && entry_keys(r)[j] == km[j - 1]);
            }
        }
        assert forall|x: Seq<char>, c: CellView| #[trigger] r.contains((x, c)) <==> ((x == k && c == v)
            || (x != k && m.contains((x, c)))) by {
            if r.contains((x, c)) {
                let i = choose|i: int| 0 <= i < r.len() && r[i] == (x, c);
                if i > 0 {
                    assert(m[i - 1] == (x, c));
                    assert(km[i - 1] == x);
                    if x == k {
                        if i - 1 > 0 {
                            assert(str_lt(km[0], km[i - 1]));
                            lemma_str_lt_transitive(k, km[0], k);
                        }
                        lemma_str_lt_irreflexive(k);
                    }
                }
            }
            if x == k && c == v {
                assert(r[0] == (x, c));
            }
            if x != k && m.contains((x, c)) {
                let i = choose|i: int| 0 <= i < m.len() && m[i] == (x, c);
                assert(r[i + 1] == (x, c));
            }
        }
    } else {
        let t = m.drop_first();
        let kt = entry_keys(t);
        assert forall|i: int, j: int| 0 <= i < j < kt.len() implies str_lt(#[trigger] kt[i], #[trigger] kt[j]) by {
            assert(kt[i] == km[i + 1] && kt[j] == km[j + 1]);
        }
        lemma_map_insert(t, k, v);
        let rt = map_insert(t, k, v);
        assert(r =~= seq![m[0]] + rt);
        lemma_str_lt_total(k, m[0].0);
        assert(str_lt(m[0].0, k));
        assert forall|i: int, j: int| 0 <= i < j < entry_keys(r).len() implies str_lt(
            #[trigger] entry_keys(r)[i],
            #[trigger] entry_keys(r)[j],
        ) by {
            if i == 0 {
                let e = rt[j - 1];
                assert(entry_keys(r)[j] == e.0);
                assert(rt.contains(e));
                if e.0 == k {
                } else {
                    assert(e == (e.0, e.1));
                    assert(rt.contains((e.0, e.1)));
                    assert(t.contains(e));
                    let n = choose|n: int| 0 <= n < t.len() && t[n] == e;
                    assert(m[n + 1] == e);
                    assert(km[n + 1] == e.0);
                    assert(str_lt(km[0], km[n + 1]));
                }
            } else {
                assert(entry_keys(r)[i] == entry_keys(rt)[i - 1]);
                assert(entry_keys(r)[j] == entry_keys(rt)[j - 1]);
            }
        }
        assert forall|x: Seq<char>, c: CellView| #[trigger] r.contains((x, c)) <==> ((x == k && c == v)
            || (x != k && m.contains((x, c)))) by {
            if r.contains((x, c)) {
                let i = choose|i: int| 0 <= i < r.len() && r[i] == (x, c);
                if i == 0 {
                    assert(m[0] == (x, c));
                } else {
                    assert(rt[i - 1] == (x, c));
                    assert(rt.contains((x, c)));
                    if x != k {
                        let n = choose|n: int| 0 <= n < t.len() && t[n] == (x, c);
                        assert(m[n + 1] == (x, c));
                    }
                }
            }
            if x == k && c == v {
                assert(rt.contains((x, c)));
                let n = choose|n: int| 0 <= n < rt.len() && rt[n] == (x, c);
                assert(r[n + 1] == (x, c));
            }
            if x != k && m.contains((x, c)) {
                let i = choose|i: int| 0 <= i < m.len() && m[i] == (x, c);
                if i == 0 {
                    assert(r[0] == (x, c));
                } else {
                    assert(t[i - 1] == (x, c));
                    assert(t.contains((x, c)));
                    assert(rt.contains((x, c)));
                    let n = choose|n: int| 0 <= n < rt.len() && rt[n] == (x, c);
                    assert(r[n + 1] == (x, c));
                }
            }
        }
    }
}

proof fn lemma_entries_from_sorted(
    acc: Seq<(Seq<char>, CellView)>,
    hs: Seq<Seq<char>>,
    fields: Seq<Seq<char>>,
    floats: Seq<Option<Seq<char>>>,
    i: int,
)
    requires
        strictly_ascending(entry_keys(acc)),
    ensures
        strictly_ascending(entry_keys(entries_from(acc, hs, fields, floats, i))),
    decreases fields.len() - i,
{
    if 0 <= i < fields.len() {
        let k = header_at(hs, i);
        let c = cell_kind(fields[i], floats[i]);
        lemma_map_insert(acc, k, c);
        lemma_entries_from_sorted(map_insert(acc, k, c), hs, fields, floats, i + 1);
    }
}

/// The object decoded from a CSV record holds each key once, in ascending
/// order (a repeated header keeps the last field under it).
pub proof fn lemma_record_keys_ascending(
    hs: Seq<Seq<char>>,
    fields: Seq<Seq<char>>,
    floats: Seq<Option<Seq<char>>>,
)
    ensures
        strictly_ascending(entry_keys(record_entries(hs, fields, floats))),
{
    assert(entry_keys(Seq::<(Seq<char>, CellView)>::empty()) =~= Seq::<Seq<char>>::empty());
    lemma_entries_from_sorted(Seq::empty(), hs, fields, floats, 0);
}

/// Insert `k -> v` into the key-ordered entries of an object.
fn object_insert(es: &mut Vec<(String, JsonValue)>, k: String, v: JsonValue)
    ensures
        entries_shallow(final(es)@) == map_insert(entries_shallow(old(es)@), k@, shallow(v)),
{
    let ghost old_v = entries_shallow(es@);
    let kc = chars_of(k.as_str());
    let mut i: usize = 0;
    while i < es.len()
        invariant
            old_v == entries_shallow(es@),
            old_v == entries_shallow(old(es)@),
            i <= es@.len(),
            kc@ == k@,
            forall|j: int| 0 <= j < i ==> (#[trigger] old_v[j]).0 != k@ && !str_lt(k@, old_v[j].0),
        decreases es@.len() - i,
    {
        assert(old_v[i as int] == (es@[i as int].0@, shallow(es@[i as int].1)));
        if es[i].0 == k {
            proof {
                lemma_map_insert_prefix(old_v, k@, shallow(v), i as int);
                assert(old_v.skip(i as int)[0].0 == k@);
            }
            let ghost kv = k@;
            let ghost sv = shallow(v);
            es.set(i, (k, v));
            assert(entries_shallow(es@) =~= old_v.take(i as int) + old_v.skip(i as int).update(0, (kv, sv)));
            return;
        }
        let ec = chars_of(es[i].0.as_str());
        if chars_less(kc.as_slice(), ec.as_slice()) {
            proof {
                lemma_map_insert_prefix(old_v, k@, shallow(v), i as int);
                assert(old_v.skip(i as int)[0] == old_v[i as int]);
            }
            let ghost kv = k@;
            let ghost sv = shallow(v);
            es.insert(i, (k, v));
            assert(entries_shallow(es@) =~= old_v.take(i as int) + (seq![(kv, sv)] + old_v.skip(i as int)));
            return;
        }
        i = i + 1;
    }
    proof {
        lemma_map_insert_prefix(old_v, k@, shallow(v), i as int);
        assert(old_v.skip(i as int) =~= Seq::<(Seq<char>, CellView)>::empty());
        assert(old_v.take(i as int) =~= old_v);
    }
    let ghost kv = k@;
    let ghost sv = shallow(v);
    es.push((k, v));
    assert(entries_shallow(es@) =~= old_v + seq![(kv, sv)]);
}

/// The object for one CSV record: each field, typed, under its header;
/// `floats` holds the float text of each field.
pub fn record_object(headers: &Vec<String>, fields: &Vec<String>, floats: Vec<Option<String>>) -> (r: Vec<
    (String, JsonValue),
>)
    requires
        floats@.len() == fields@.len(),
    ensures
        entries_shallow(r@) == record_entries(
            string_views(headers@),
            string_views(fields@),
            opt_views(floats@),
        ),
{
    let ghost hs = string_views(headers@);
    let ghost fs = string_views(fields@);
    let ghost fl = opt_views(floats@);
    let mut floats = floats;
    assert(floats@.skip(0) =~= floats@);
    let mut es: Vec<(String, JsonValue)> = Vec::new();
    let mut i: usize = 0;
    assert(entries_shallow(es@) =~= Seq::<(Seq<char>, CellView)>::empty());
    while i < fields.len()
        invariant
            i <= fields@.len(),
            hs == string_views(headers@),
            fs == string_views(fields@),
            floats@.len() == fields@.len() - i,
            forall|j: int| 0 <= j < floats@.len() ==> opt_view(#[trigger] floats@[j]) == fl[j + i],
            fl.len() == fields@.len(),
            record_entries(hs, fs, fl) == entries_from(entries_shallow(es@), hs, fs, fl, i as int),
        decreases fields@.len() - i,
    {
        let key = if i < headers.len() {
            headers[i].clone()
        } else {
            String::from_str("column")
        };
        assert(key@ == header_at(hs, i as int));
        let fv = floats.remove(0);
        assert(opt_view(fv) == fl[i as int]);
        let v = cell_value(&fields[i], fv);
        object_insert(&mut es, key, v);
        i = i + 1;
    }
    es
}

/// Whether `o` is an answer `float_text` may give for a field whose text
/// is `field`.
pub open spec fn float_answer<F: Fn(&str) -> Option<String>>(
    float_text: &F,
    field: Seq<char>,
    o: Option<String>,
) -> bool {
    exists|s: &str| s@ == field && #[trigger] float_text.ensures((s,), o)
}

/// Whether `fl` holds, field for field, answers of `float_text`.
pub open spec fn float_answers<F: Fn(&str) -> Option<String>>(
    float_text: &F,
    fields: Seq<Seq<char>>,
    fl: Seq<Option<String>>,
) -> bool {
    &&& fl.len() == fields.len()
    &&& forall|k: int| 0 <= k < fl.len() ==> #[trigger] float_answer(float_text, fields[k], fl[k])
}

/// Whether `obj` is the object of the record `fields` under headers `hs`,
/// each field typed with the float text `float_text` gives for it.
pub open spec fn record_value<F: Fn(&str) -> Option<String>>(
    float_text: &F,
    hs: Seq<Seq<char>>,
    fields: Seq<Seq<char>>,
    obj: JsonValue,
) -> bool {
    obj matches JsonValue::Object(es) && exists|fl: Seq<Option<String>>|
        #![trigger float_answers(float_text, fields, fl)]
        float_answers(float_text, fields, fl) && entries_shallow(es@) == record_entries(
            hs,
            fields,
            opt_views(fl),
        )
}

/// What decoding CSV text gives: one object per record, or the error of
/// the read that failed.
pub open spec fn csv_read_outcome<F: Fn(&str) -> Option<String>>(
    float_text: &F,
    text: Seq<char>,
    r: Result<JsonValue, String>,
) -> bool {
    match csv_read_of(text) {
        Some((h, rows)) => r matches Ok(JsonValue::Array(objs)) && objs@.len() == rows.len()
            && forall|i: int|
            0 <= i < rows.len() ==> record_value(float_text, h, rows[i], #[trigger] objs@[i]),
        None => r matches Err(m) && starts_with(
            m@,
            if csv_headers_ok(text) {
                "CSV parse record error: "@
            } else {
                "failed to read CSV headers: "@
            },
        ),
    }
}

/// Decode CSV text (with a header row) into an array holding one object
/// per record. `float_text` gives the JSON number text of a field that
/// reads as a finite floating-point number (see `cell_kind`).
pub fn csv_to_value<F: Fn(&str) -> Option<String>>(text: &str, float_text: &F) -> (r: Result<
    JsonValue,
    String,
>)
    requires
        forall|s: &str| float_text.requires((s,)),
    ensures
        csv_read_outcome(float_text, text@, r),
{
    let (headers, rows) = match read_csv(text) {
        Ok(t) => t,
        Err(CsvReadFailure::Headers(e)) => return Err(
            with_detail("failed to read CSV headers: ", csv_error_text(&e)),
        ),
        Err(CsvReadFailure::Record(e)) => return Err(
            with_detail("CSV parse record error: ", csv_error_text(&e)),
        ),
    };
    let ghost h = string_views(headers@);
    let ghost rs = record_views(rows@);
    let mut objs: Vec<JsonValue> = Vec::new();
    let mut i: usize = 0;
    while i < rows.len()
        invariant
            i <= rows@.len(),
            h == string_views(headers@),
            rs == record_views(rows@),
            forall|s: &str| float_text.requires((s,)),
            objs@.len() == i,
            forall|j: int| 0 <= j < i ==> record_value(float_text, h, rs[j], #[trigger] objs@[j]),
        decreases rows@.len() - i,
    {
        let fields = &rows[i];
        let ghost fs = string_views(fields@);
        assert(rs[i as int] == fs);
        let mut floats: Vec<Option<String>> = Vec::new();
        let mut k: usize = 0;
        while k < fields.len()
            invariant
                k <= fields@.len(),
                fs == string_views(fields@),
                floats@.len() == k,
                forall|s: &str| float_text.requires((s,)),
                forall|j: int| 0 <= j < k ==> #[trigger] float_answer(float_text, fs[j], floats@[j]),
            decreases fields@.len() - k,
        {
            let s = fields[k].as_str();
            let o = float_text(s);
            assert(float_answer(float_text, fs[k as int], o));
            floats.push(o);
            k = k + 1;
        }
        let ghost fl = floats@;
        assert(float_answers(float_text, fs, fl));
        let es = record_object(&headers, fields, floats);
        let obj = JsonValue::Object(es);
        assert(record_value(float_text, h, fs, obj));
        objs.push(obj);
        i = i + 1;
    }
    Ok(JsonValue::Array(objs))
}

// ---------------------------------------------------------------------
// Reading and writing JSON, YAML and TOML (through serde)
// ---------------------------------------------------------------------

/// A `serde_json` error, carried unread.
#[verifier::external_type_specification]
#[verifier::external_body]
pub struct ExSerdeJsonError(serde_json::Error);

/// A `serde_yaml` error, carried unread.
#[verifier::external_type_specification]
#[verifier::external_body]
pub struct ExSerdeYamlError(serde_yaml::Error);

/// A TOML read error, carried unread.
#[verifier::external_type_specification]
#[verifier::external_body]
pub struct ExTomlDeError(toml::de::Error);

/// A TOML write error, carried unread.
#[verifier::external_type_specification]
#[verifier::external_body]
pub struct ExTomlSerError(toml::ser::Error);

/// The value `serde_json::from_str` reads from the text, `None` when it
/// reports an error.
pub uninterp spec fn json_read_of(text: Seq<char>) -> Option<JsonValue>;

/// The value `serde_yaml::from_str` reads from the text, `None` when it
/// reports an error.
pub uninterp spec fn yaml_read_of(text: Seq<char>) -> Option<JsonValue>;

/// Whether `toml::from_str` reads a TOML value from the text.
pub uninterp spec fn toml_syntax_ok(text: Seq<char>) -> bool;

/// The value `serde_json::to_value` makes of the TOML value read from the
/// text, `None` when either step reports an error.
pub uninterp spec fn toml_read_of(text: Seq<char>) -> Option<JsonValue>;

/// What `serde_json::to_string_pretty` writes for the value, `None` when
/// it reports an error.
pub uninterp spec fn json_pretty_of(v: JsonValue) -> Option<Seq<char>>;

/// What `serde_yaml::to_string` writes for the value, `None` when it
/// reports an error.
pub uninterp spec fn yaml_text_of(v: JsonValue) -> Option<Seq<char>>;

/// What `toml::to_string_pretty` writes for the value, `None` when it
/// reports an error.
pub uninterp spec fn toml_text_of(v: JsonValue) -> Option<Seq<char>>;

/// Calls `serde_json::from_str` into a `serde_json::Value`; the value read
/// is named `json_read_of`.
#[verifier::external_body]
fn read_json(text: &str) -> (r: Result<JsonValue, serde_json::Error>)
    ensures
        match json_read_of(text@) {
            Some(v) => r matches Ok(x) && x == v,
            None => r is Err,
        },
{
    serde_json::from_str::<serde_json::Value>(text).map(from_serde)
}

/// Calls `serde_yaml::from_str` into a `serde_json::Value`; the value read
/// is named `yaml_read_of`.
#[verifier::external_body]
fn read_yaml(text: &str) -> (r: Result<JsonValue, serde_yaml::Error>)
    ensures
        match yaml_read_of(text@) {
            Some(v) => r matches Ok(x) && x == v,
            None => r is Err,
        },
{
    serde_yaml::from_str::<serde_json::Value>(text).map(from_serde)
}

/// Which step of reading TOML failed.
pub enum TomlReadFailure {
    Syntax(toml::de::Error),
    ToJson(serde_json::Error),
}

/// Calls `toml::from_str` into a `toml::Value`, then `serde_json::to_value`
/// on it. The first step fails exactly when `toml_syntax_ok` does not
/// hold; the value of both is named `toml_read_of`.
#[verifier::external_body]
fn read_toml(text: &str) -> (r: Result<JsonValue, TomlReadFailure>)
    ensures
        r matches Err(TomlReadFailure::Syntax(_)) <==> !toml_syntax_ok(text@),
        match toml_read_of(text@) {
            Some(v) => r matches Ok(x) && x == v,
            None => r is Err,
        },
{
    let t = toml::from_str::<toml::Value>(text).map_err(TomlReadFailure::Syntax)?;
    serde_json::to_value(t).map(from_serde).map_err(TomlReadFailure::ToJson)
}

/// Calls `serde_json::to_string_pretty`; the text is named
/// `json_pretty_of`.
#[verifier::external_body]
fn write_json_pretty(v: &JsonValue) -> (r: Result<String, serde_json::Error>)
    ensures
        match json_pretty_of(*v) {
            Some(t) => r matches Ok(s) && s@ == t,
            None => r is Err,
        },
{
    serde_json::to_string_pretty(&to_serde(v))
}

/// Calls `serde_yaml::to_string`; the text is named `yaml_text_of`.
#[verifier::external_body]
fn write_yaml(v: &JsonValue) -> (r: Result<String, serde_yaml::Error>)
    ensures
        match yaml_text_of(*v) {
            Some(t) => r matches Ok(s) && s@ == t,
            None => r is Err,
        },
{
    serde_yaml::to_string(&to_serde(v))
}

/// Calls `toml::to_string_pretty`; the text is named `toml_text_of`.
#[verifier::external_body]
fn write_toml(v: &JsonValue) -> (r: Result<String, toml::ser::Error>)
    ensures
        match toml_text_of(*v) {
            Some(t) => r matches Ok(s) && s@ == t,
            None => r is Err,
        },
{
    toml::to_string_pretty(&to_serde(v))
}

/// The `Display` text of a `serde_json` error.
#[verifier::external_body]
fn json_error_text(e: &serde_json::Error) -> (r: String) {
    e.to_string()
}

/// The `Display` text of a `serde_yaml` error.
#[verifier::external_body]
fn yaml_error_text(e: &serde_yaml::Error) -> (r: String) {
    e.to_string()
}

/// The `Display` text of a TOML read error.
#[verifier::external_body]
fn toml_de_error_text(e: &toml::de::Error) -> (r: String) {
    e.to_string()
}

/// The `Display` text of a TOML write error.
#[verifier::external_body]
fn toml_ser_error_text(e: &toml::ser::Error) -> (r: String) {
    e.to_string()
}

// ---------------------------------------------------------------------
// Decoding, encoding and converting
// ---------------------------------------------------------------------

/// Decoding outcome `r` of a named read: the value read, or an error
/// message with `prefix`.
pub open spec fn read_outcome(
    read: Option<JsonValue>,
    prefix: Seq<char>,
    r: Result<JsonValue, String>,
) -> bool {
    match read {
        Some(v) => r matches Ok(x) && x == v,
        None => r matches Err(m) && starts_with(m@, prefix),
    }
}

/// The message for a source format the data adapter does not read.
pub open spec fn unsupported_source(from: Format) -> Seq<char> {
    "unsupported source data format '"@ + format_name(from) + "'"@
}

/// The message for a target format the data adapter does not write.
pub open spec fn unsupported_target(to: Format) -> Seq<char> {
    "unsupported target data format '"@ + format_name(to) + "'"@
}

/// The message when plain text holds none of the data formats.
pub open spec fn no_structured_data() -> Seq<char> {
    "plain text file does not contain valid JSON, YAML, TOML, or CSV data"@
}

/// What decoding plain text gives: the first of JSON, YAML, TOML and CSV
/// that reads it (a TOML document whose conversion fails gives `null`).
pub open spec fn plain_outcome<F: Fn(&str) -> Option<String>>(
    float_text: &F,
    text: Seq<char>,
    r: Result<JsonValue, String>,
) -> bool {
    if json_read_of(text) is Some {
        r matches Ok(x) && Some(x) == json_read_of(text)
    } else if yaml_read_of(text) is Some {
        r matches Ok(x) && Some(x) == yaml_read_of(text)
    } else if toml_syntax_ok(text) {
        r matches Ok(x) && x == (match toml_read_of(text) {
            Some(v) => v,
            None => JsonValue::Null,
        })
    } else if csv_read_of(text) is Some {
        csv_read_outcome(float_text, text, r)
    } else {
        r matches Err(m) && m@ == no_structured_data()
    }
}

/// What decoding `text` as format `from` gives.
pub open spec fn decode_outcome<F: Fn(&str) -> Option<String>>(
    float_text: &F,
    from: Format,
    text: Seq<char>,
    r: Result<JsonValue, String>,
) -> bool {
    match from {
        Format::Json => read_outcome(json_read_of(text), "invalid JSON syntax: "@, r),
        Format::Yaml => read_outcome(yaml_read_of(text), "invalid YAML syntax: "@, r),
        Format::Toml => read_outcome(
            toml_read_of(text),
            if toml_syntax_ok(text) {
                "TOML to JSON conversion error: "@
            } else {
                "invalid TOML syntax: "@
            },
            r,
        ),
        Format::Csv => csv_read_outcome(float_text, text, r),
        Format::PlainText => plain_outcome(float_text, text, r),
        _ => r matches Err(m) && m@ == unsupported_source(from),
    }
}

/// Decode `text`, written in format `from`, into a value. `float_text`
/// types CSV fields that read as floating-point numbers (see
/// `csv_to_value`).
pub fn decode_data<F: Fn(&str) -> Option<String>>(text: &str, from: Format, float_text: &F) -> (r:
    Result<JsonValue, String>)
    requires
        forall|s: &str| float_text.requires((s,)),
    ensures
        decode_outcome(float_text, from, text@, r),
{
    match from {
        Format::Json => match read_json(text) {
            Ok(v) => Ok(v),
            Err(e) => Err(with_detail("invalid JSON syntax: ", json_error_text(&e))),
        },
        Format::Yaml => match read_yaml(text) {
            Ok(v) => Ok(v),
            Err(e) => Err(with_detail("invalid YAML syntax: ", yaml_error_text(&e))),
        },
        Format::Toml => match read_toml(text) {
            Ok(v) => Ok(v),
            Err(TomlReadFailure::Syntax(e)) => Err(
                with_detail("invalid TOML syntax: ", toml_de_error_text(&e)),
            ),
            Err(TomlReadFailure::ToJson(e)) => Err(
                with_detail("TOML to JSON conversion error: ", json_error_text(&e)),
            ),
        },
        Format::Csv => csv_to_value(text, float_text),
        Format::PlainText => {
            if let Ok(v) = read_json(text) {
                return Ok(v);
            }
            if let Ok(v) = read_yaml(text) {
                return Ok(v);
            }
            match read_toml(text) {
                Ok(v) => {
                    return Ok(v);
                },
                Err(TomlReadFailure::ToJson(_)) => {
                    return Ok(JsonValue::Null);
                },
                Err(TomlReadFailure::Syntax(_)) => {},
            }
            match csv_to_value(text, float_text) {
                Ok(v) => Ok(v),
                Err(_) => Err(
                    String::from_str(
                        "plain text file does not contain valid JSON, YAML, TOML, or CSV data",
                    ),
                ),
            }
        },
        _ => {
            let mut m = String::from_str("unsupported source data format '");
            m.append(from.as_str());
            m.append("'");
            Err(m)
        },
    }
}

/// Whether `w` is the TOML document root for `v`: an object as it is,
/// anything else under the single key `data`.
pub open spec fn toml_root(w: JsonValue, v: JsonValue) -> bool {
    if v is Object {
        w == v
    } else {
        w matches JsonValue::Object(es) && es@.len() == 1 && es@[0].0@ == "data"@ && es@[0].1 == v
    }
}

/// Encoding outcome `r` of a named write: the text written, or an error
/// message with `prefix`.
pub open spec fn write_outcome(
    written: Option<Seq<char>>,
    prefix: Seq<char>,
    r: Result<String, String>,
) -> bool {
    match written {
        Some(t) => r matches Ok(s) && s@ == t,
        None => r matches Err(m) && starts_with(m@, prefix),
    }
}

/// What encoding `v` in format `to` gives.
pub open spec fn encode_outcome(v: JsonValue, to: Format, r: Result<String, String>) -> bool {
    match to {
        Format::Json => write_outcome(json_pretty_of(v), "JSON serialization failed: "@, r),
        Format::Yaml => write_outcome(yaml_text_of(v), "YAML serialization failed: "@, r),
        Format::Toml => exists|w: JsonValue|
            #![trigger toml_text_of(w)]
            toml_root(w, v) && write_outcome(toml_text_of(w), "TOML serialization failed: "@, r),
        Format::Csv => csv_write_outcome(v, r),
        _ => r matches Err(m) && m@ == unsupported_target(to),
    }
}

/// Encode a value in format `to`: pretty JSON, YAML, pretty TOML (a
/// value that is not an object goes under the key `data`, as TOML needs a
/// table at its root), or CSV.
pub fn encode_data(v: JsonValue, to: Format) -> (r: Result<String, String>)
    ensures
        encode_outcome(v, to, r),
{
    match to {
        Format::Json => match write_json_pretty(&v) {
            Ok(s) => Ok(s),
            Err(e) => Err(with_detail("JSON serialization failed: ", json_error_text(&e))),
        },
        Format::Yaml => match write_yaml(&v) {
            Ok(s) => Ok(s),
            Err(e) => Err(with_detail("YAML serialization failed: ", yaml_error_text(&e))),
        },
        Format::Toml => {
            let ghost v0 = v;
            let root = match v {
                JsonValue::Object(es) => JsonValue::Object(es),
                other => JsonValue::Object(vec![(String::from_str("data"), other)]),
            };
            assert(toml_root(root, v0));
            match write_toml(&root) {
                Ok(s) => Ok(s),
                Err(e) => Err(with_detail("TOML serialization failed: ", toml_ser_error_text(&e))),
            }
        },
        Format::Csv => value_to_csv(&v),
        _ => {
            let mut m = String::from_str("unsupported target data format '");
            m.append(to.as_str());
            m.append("'");
            Err(m)
        },
    }
}

/// Convert `text` from data format `from` into data format `to`: decode,
/// then encode the value; a decoding error is the result.
pub fn convert_data<F: Fn(&str) -> Option<String>>(
    text: &str,
    from: Format,
    to: Format,
    float_text: &F,
) -> (r: Result<String, String>)
    requires
        forall|s: &str| float_text.requires((s,)),
    ensures
        exists|d: Result<JsonValue, String>|
            #![trigger decode_outcome(float_text, from, text@, d)]
            decode_outcome(float_text, from, text@, d) && match d {
                Ok(v) => encode_outcome(v, to, r),
                Err(m) => r matches Err(m2) && m2@ == m@,
            },
{
    let d = decode_data(text, from, float_text);
    let ghost dg = d;
    match d {
        Ok(v) => encode_data(v, to),
        Err(m) => Err(m),
    }
}

} // verus!
