//! JSON objects, written with `serde_json`.

use crate::text;
use vstd::prelude::*;

verus! {

/// A value that a JSON object of this crate holds.
pub enum JsonValue {
    Text(Seq<char>),
    Number(nat),
}

#[verifier::external_type_specification]
#[verifier::external_body]
pub struct ExJsonValue(serde_json::Value);

#[verifier::external_type_specification]
#[verifier::external_body]
#[verifier::reject_recursive_types(K)]
#[verifier::reject_recursive_types(V)]
pub struct ExJsonMap<K, V>(serde_json::Map<K, V>);

#[verifier::external_type_specification]
#[verifier::external_body]
pub struct ExJsonError(serde_json::Error);

/// A JSON object. It holds texts and numbers only.
pub struct JsonObject {
    map: serde_json::Map<String, serde_json::Value>,
}

/// The members of a `serde_json` object, in the order in which it keeps them.
pub uninterp spec fn members(object: serde_json::Map<String, serde_json::Value>) -> Seq<
    (Seq<char>, JsonValue),
>;

/// Whether one of the members has the given key.
pub open spec fn has_key(fields: Seq<(Seq<char>, JsonValue)>, key: Seq<char>) -> bool {
    exists|i: int| 0 <= i < fields.len() && (#[trigger] fields[i]).0 == key
}

/// The lower case hexadecimal digit of a number below sixteen.
pub open spec fn hex_digit(d: int) -> char {
    if d < 10 {
        ('0' as u32 + d) as u32 as char
    } else {
        ('a' as u32 + (d - 10)) as u32 as char
    }
}

/// How a character stands inside a JSON string: quotes, backslashes and
/// control characters are escaped, everything else stands for itself.
pub open spec fn escaped(c: char) -> Seq<char> {
    if c == '"' {
        seq!['\\', '"']
    } else if c == '\\' {
        seq!['\\', '\\']
    } else if c == '\n' {
        seq!['\\', 'n']
    } else if c == '\r' {
        seq!['\\', 'r']
    } else if c == '\t' {
        seq!['\\', 't']
    } else if c as u32 == 8 {
        seq!['\\', 'b']
    } else if c as u32 == 12 {
        seq!['\\', 'f']
    } else if (c as u32) < 32 {
        seq!['\\', 'u', '0', '0', hex_digit(c as u32 as int / 16), hex_digit(c as u32 as int % 16)]
    } else {
        seq![c]
    }
}

/// The inside of the JSON string for `s`.
pub open spec fn escaped_text(s: Seq<char>) -> Seq<char>
    decreases s.len(),
{
    if s.len() == 0 {
        Seq::empty()
    } else {
        escaped(s.first()) + escaped_text(s.drop_first())
    }
}

/// The JSON string for `s`.
pub open spec fn string_text(s: Seq<char>) -> Seq<char> {
    seq!['"'] + escaped_text(s) + seq!['"']
}

/// The JSON text of a value.
pub open spec fn value_text(v: JsonValue) -> Seq<char> {
    match v {
        JsonValue::Text(s) => string_text(s),
        JsonValue::Number(n) => text::decimal(n),
    }
}

/// The members of a JSON object, `"key":value`, separated by commas.
pub open spec fn members_text(fields: Seq<(Seq<char>, JsonValue)>) -> Seq<char>
    decreases fields.len(),
{
    if fields.len() == 0 {
        Seq::empty()
    } else {
        let after = if fields.len() == 1 {
            Seq::empty()
        } else {
            seq![','] + members_text(fields.drop_first())
        };
        string_text(fields.first().0) + seq![':'] + value_text(fields.first().1) + after
    }
}

/// The JSON text of an object: no white space, members in order.
pub open spec fn object_text(fields: Seq<(Seq<char>, JsonValue)>) -> Seq<char> {
    seq!['{'] + members_text(fields) + seq!['}']
}

/// `serde_json::Map::new`: an object without members.
#[verifier::external_body]
fn map_new() -> (r: JsonObject)
    ensures
        members(r.map) == Seq::<(Seq<char>, JsonValue)>::empty(),
{
    JsonObject { map: serde_json::Map::new() }
}

/// `serde_json::Map::insert` of a text value. With the feature
/// `preserve_order` an object keeps its members in the order of insertion, so
/// a member whose key is new comes last.
#[verifier::external_body]
fn map_insert_text(object: &mut JsonObject, key: &str, value: &str)
    requires
        !has_key(members(old(object).map), key@),
    ensures
        members(final(object).map) == members(old(object).map).push(
            (key@, JsonValue::Text(value@)),
        ),
{
    object.map.insert(key.to_owned(), serde_json::Value::String(value.to_owned()));
}

/// `serde_json::Map::insert` of a number, as [`map_insert_text`].
#[verifier::external_body]
fn map_insert_number(object: &mut JsonObject, key: &str, value: u64)
    requires
        !has_key(members(old(object).map), key@),
    ensures
        members(final(object).map) == members(old(object).map).push(
            (key@, JsonValue::Number(value as nat)),
        ),
{
    object.map.insert(key.to_owned(), serde_json::Value::from(value));
}

/// `serde_json::to_string` of an object: its compact JSON text. An object of
/// texts and numbers always has one.
#[verifier::external_body]
fn map_to_string(object: &JsonObject) -> (r: Result<String, serde_json::Error>)
    ensures
        r is Ok,
        r->Ok_0@ == object_text(members(object.map)),
{
    serde_json::to_string(&object.map)
}

impl View for JsonObject {
    type V = Seq<(Seq<char>, JsonValue)>;

    closed spec fn view(&self) -> Seq<(Seq<char>, JsonValue)> {
        members(self.map)
    }
}

impl JsonObject {
    /// An object without members.
    pub fn new() -> (r: Self)
        ensures
            r@ == Seq::<(Seq<char>, JsonValue)>::empty(),
    {
        map_new()
    }

    /// Appends a member with a text, under a new key.
    pub fn insert_text(&mut self, key: &str, value: &str)
        requires
            !has_key(old(self)@, key@),
        ensures
            final(self)@ == old(self)@.push((key@, JsonValue::Text(value@))),
    {
        map_insert_text(self, key, value)
    }

    /// Appends a member with a number, under a new key.
    pub fn insert_number(&mut self, key: &str, value: u64)
        requires
            !has_key(old(self)@, key@),
        ensures
            final(self)@ == old(self)@.push((key@, JsonValue::Number(value as nat))),
    {
        map_insert_number(self, key, value)
    }

    /// The object's JSON text.
    pub fn write(&self) -> (r: Result<String, serde_json::Error>)
        ensures
            r is Ok,
            r->Ok_0@ == object_text(self@),
    {
        map_to_string(self)
    }
}

/// Whether no character of `s` is a control character.
pub open spec fn printable(s: Seq<char>) -> bool {
    forall|i: int| 0 <= i < s.len() ==> 32 <= #[trigger] s[i] as u32
}

proof fn lemma_printable_join(a: Seq<char>, b: Seq<char>)
    requires
        printable(a),
        printable(b),
    ensures
        printable(a + b),
{
    assert forall|i: int| 0 <= i < (a + b).len() implies 32 <= #[trigger] (a + b)[i] as u32 by {
        if i < a.len() {
            assert((a + b)[i] == a[i]);
        } else {
            assert((a + b)[i] == b[i - a.len()]);
        }
    }
}

proof fn lemma_escaped_printable(s: Seq<char>)
    ensures
        printable(escaped_text(s)),
    decreases s.len(),
{
    if s.len() > 0 {
        lemma_escaped_printable(s.drop_first());
        let c = s.first();
        let e = escaped(c);
        assert forall|i: int| 0 <= i < e.len() implies 32 <= #[trigger] e[i] as u32 by {
            if e.len() == 6 {
                assert(0 <= c as u32 as int / 16 < 2);
                assert(32 <= hex_digit(c as u32 as int / 16) as u32);
                assert(32 <= hex_digit(c as u32 as int % 16) as u32);
            }
        }
        lemma_printable_join(escaped(s.first()), escaped_text(s.drop_first()));
    }
}

proof fn lemma_string_printable(s: Seq<char>)
    ensures
        printable(string_text(s)),
{
    lemma_escaped_printable(s);
    lemma_printable_join(seq!['"'], escaped_text(s));
    lemma_printable_join(seq!['"'] + escaped_text(s), seq!['"']);
}

proof fn lemma_members_printable(fields: Seq<(Seq<char>, JsonValue)>)
    ensures
        printable(members_text(fields)),
    decreases fields.len(),
{
    if fields.len() > 0 {
        let key = string_text(fields.first().0);
        let value = value_text(fields.first().1);
        lemma_string_printable(fields.first().0);
        match fields.first().1 {
            JsonValue::Text(t) => lemma_string_printable(t),
            JsonValue::Number(n) => text::lemma_decimal_digits(n),
        }
        lemma_printable_join(key, seq![':']);
        lemma_printable_join(key + seq![':'], value);
        lemma_members_printable(fields.drop_first());
        lemma_printable_join(seq![','], members_text(fields.drop_first()));
        if fields.len() == 1 {
            lemma_printable_join(key + seq![':'] + value, Seq::empty());
        } else {
            lemma_printable_join(
                key + seq![':'] + value,
                seq![','] + members_text(fields.drop_first()),
            );
        }
    }
}

/// The JSON text of an object holds no control character, whatever its members
/// hold: it is a single line.
pub proof fn law_object_text_is_one_line(fields: Seq<(Seq<char>, JsonValue)>)
    ensures
        printable(object_text(fields)),
{
    lemma_members_printable(fields);
    lemma_printable_join(seq!['{'], members_text(fields));
    lemma_printable_join(seq!['{'] + members_text(fields), seq!['}']);
}

/// Two escapes at the head of the same text are escapes of the same character.
proof fn lemma_escaped_head(c: char, d: char, x: Seq<char>, y: Seq<char>)
    requires
        escaped(c) + x == escaped(d) + y,
    ensures
        c == d,
        x == y,
{
    let l = escaped(c) + x;
    let r = escaped(d) + y;
    assert(l[0] == escaped(c)[0]);
    assert(r[0] == escaped(d)[0]);
    if escaped(c).len() > 1 {
        assert(l[1] == escaped(c)[1]);
        assert(r[1] == escaped(d)[1]);
        if escaped(c).len() > 2 {
            assert(l[4] == escaped(c)[4]);
            assert(r[4] == escaped(d)[4]);
            assert(l[5] == escaped(c)[5]);
            assert(r[5] == escaped(d)[5]);
            assert(c as u32 as int == 16 * (c as u32 as int / 16) + c as u32 as int % 16);
            assert(d as u32 as int == 16 * (d as u32 as int / 16) + d as u32 as int % 16);
        }
    }
    assert(c == d);
    text::lemma_same_head(escaped(c), x, y);
}

/// Two JSON strings at the head of the same text stand for the same text.
proof fn lemma_inside_head(a: Seq<char>, b: Seq<char>, x: Seq<char>, y: Seq<char>)
    requires
        escaped_text(a) + seq!['"'] + x == escaped_text(b) + seq!['"'] + y,
    ensures
        a == b,
        x == y,
    decreases a.len(),
{
    let l = escaped_text(a) + seq!['"'] + x;
    let r = escaped_text(b) + seq!['"'] + y;
    if a.len() == 0 {
        assert(l[0] == '"');
        if b.len() > 0 {
            assert(r[0] == escaped(b.first())[0]);
        }
        assert(a =~= b);
        assert(escaped_text(a) + seq!['"'] =~= seq!['"']);
        text::lemma_same_head(seq!['"'], x, y);
    } else if b.len() == 0 {
        assert(r[0] == '"');
        assert(l[0] == escaped(a.first())[0]);
    } else {
        let ar = escaped_text(a.drop_first()) + seq!['"'] + x;
        let br = escaped_text(b.drop_first()) + seq!['"'] + y;
        assert(l =~= escaped(a.first()) + ar);
        assert(r =~= escaped(b.first()) + br);
        lemma_escaped_head(a.first(), b.first(), ar, br);
        lemma_inside_head(a.drop_first(), b.drop_first(), x, y);
        assert(a =~= seq![a.first()] + a.drop_first());
        assert(b =~= seq![b.first()] + b.drop_first());
    }
}

proof fn lemma_string_head(a: Seq<char>, b: Seq<char>, x: Seq<char>, y: Seq<char>)
    requires
        string_text(a) + x == string_text(b) + y,
    ensures
        a == b,
        x == y,
{
    let l = escaped_text(a) + seq!['"'] + x;
    let r = escaped_text(b) + seq!['"'] + y;
    assert(string_text(a) + x =~= seq!['"'] + l);
    assert(string_text(b) + y =~= seq!['"'] + r);
    text::lemma_same_head(seq!['"'], l, r);
    lemma_inside_head(a, b, x, y);
}

/// Two values at the head of the same text, each before a character that is no
/// digit, are the same value.
proof fn lemma_value_head(a: JsonValue, b: JsonValue, x: Seq<char>, y: Seq<char>)
    requires
        value_text(a) + x == value_text(b) + y,
        x.len() > 0 && !text::is_digit(x[0]),
        y.len() > 0 && !text::is_digit(y[0]),
    ensures
        a == b,
        x == y,
{
    let l = value_text(a) + x;
    let r = value_text(b) + y;
    assert(l[0] == value_text(a)[0]) by {
        text::lemma_decimal_digits(a->Number_0);
    }
    assert(r[0] == value_text(b)[0]) by {
        text::lemma_decimal_digits(b->Number_0);
    }
    match a {
        JsonValue::Text(s) => {
            match b {
                JsonValue::Text(t) => lemma_string_head(s, t, x, y),
                JsonValue::Number(n) => text::lemma_decimal_digits(n),
            }
        },
        JsonValue::Number(m) => {
            text::lemma_decimal_digits(m);
            match b {
                JsonValue::Text(t) => {},
                JsonValue::Number(n) => text::lemma_decimal_head(m, n, x, y),
            }
        },
    }
}

proof fn lemma_members_head(f: Seq<(Seq<char>, JsonValue)>, g: Seq<(Seq<char>, JsonValue)>)
    requires
        members_text(f) + seq!['}'] == members_text(g) + seq!['}'],
    ensures
        f == g,
    decreases f.len(),
{
    let l = members_text(f) + seq!['}'];
    let r = members_text(g) + seq!['}'];
    if f.len() == 0 {
        assert(l[0] == '}');
        if g.len() > 0 {
            assert(r[0] == '"');
        }
        assert(f =~= g);
    } else if g.len() == 0 {
        assert(r[0] == '}');
        assert(l[0] == '"');
    } else {
        let more_f = if f.len() == 1 { Seq::empty() } else { seq![','] + members_text(f.drop_first()) };
        let more_g = if g.len() == 1 { Seq::empty() } else { seq![','] + members_text(g.drop_first()) };
        let rest_f = more_f + seq!['}'];
        let rest_g = more_g + seq!['}'];
        let value_f = value_text(f.first().1) + rest_f;
        let value_g = value_text(g.first().1) + rest_g;
        assert(l =~= string_text(f.first().0) + (seq![':'] + value_f));
        assert(r =~= string_text(g.first().0) + (seq![':'] + value_g));
        lemma_string_head(f.first().0, g.first().0, seq![':'] + value_f, seq![':'] + value_g);
        text::lemma_same_head(seq![':'], value_f, value_g);
        lemma_value_head(f.first().1, g.first().1, rest_f, rest_g);
        if f.len() == 1 {
            assert(rest_f[0] == '}');
            assert(g.len() == 1);
        } else {
            assert(rest_f[0] == ',');
            assert(g.len() > 1);
            let tail_f = members_text(f.drop_first()) + seq!['}'];
            let tail_g = members_text(g.drop_first()) + seq!['}'];
            assert(rest_f =~= seq![','] + tail_f);
            assert(rest_g =~= seq![','] + tail_g);
            text::lemma_same_head(seq![','], tail_f, tail_g);
            lemma_members_head(f.drop_first(), g.drop_first());
        }
        assert(f =~= seq![f.first()] + f.drop_first());
        assert(g =~= seq![g.first()] + g.drop_first());
        assert(f.drop_first() =~= g.drop_first());
    }
}

/// The JSON text of an object determines its members: two objects have the
/// same text only where they have the same members in the same order.
pub proof fn law_object_text_determines_members(
    f: Seq<(Seq<char>, JsonValue)>,
    g: Seq<(Seq<char>, JsonValue)>,
)
    requires
        object_text(f) == object_text(g),
    ensures
        f == g,
{
    let l = members_text(f) + seq!['}'];
    let r = members_text(g) + seq!['}'];
    assert(object_text(f) =~= seq!['{'] + l);
    assert(object_text(g) =~= seq!['{'] + r);
    text::lemma_same_head(seq!['{'], l, r);
    lemma_members_head(f, g);
}

/// A text without quotes, backslashes and control characters stands in a JSON
/// string as it is, between quotes.
pub proof fn law_plain_text_stands_for_itself(s: Seq<char>)
    requires
        forall|i: int|
            0 <= i < s.len() ==> #[trigger] s[i] as u32 >= 32 && s[i] != '"' && s[i] != '\\',
    ensures
        string_text(s) == seq!['"'] + s + seq!['"'],
    decreases s.len(),
{
    lemma_plain_escaped(s);
}

proof fn lemma_plain_escaped(s: Seq<char>)
    requires
        forall|i: int|
            0 <= i < s.len() ==> #[trigger] s[i] as u32 >= 32 && s[i] != '"' && s[i] != '\\',
    ensures
        escaped_text(s) == s,
    decreases s.len(),
{
    if s.len() > 0 {
        let rest = s.drop_first();
        assert forall|i: int| 0 <= i < rest.len() implies #[trigger] rest[i] as u32 >= 32 && rest[i]
            != '"' && rest[i] != '\\' by {
            assert(rest[i] == s[i + 1]);
        }
        lemma_plain_escaped(rest);
        let c = s[0];
        assert(s.first() == c);
        assert(escaped(c) =~= seq![c]);
        assert(escaped_text(s) =~= s);
    } else {
        assert(escaped_text(s) =~= s);
    }
}

/// The text of an object of two members.
pub(crate) proof fn lemma_two_members(
    k1: Seq<char>,
    v1: JsonValue,
    k2: Seq<char>,
    v2: JsonValue,
)
    ensures
        object_text(seq![(k1, v1), (k2, v2)]) == seq!['{'] + string_text(k1) + seq![':']
            + value_text(v1) + seq![','] + string_text(k2) + seq![':'] + value_text(v2) + seq!['}'],
{
    let fields = seq![(k1, v1), (k2, v2)];
    assert(fields.drop_first() =~= seq![(k2, v2)]);
    reveal_with_fuel(members_text, 2);
    assert(object_text(fields) =~= seq!['{'] + string_text(k1) + seq![':'] + value_text(v1)
        + seq![','] + string_text(k2) + seq![':'] + value_text(v2) + seq!['}']);
}

/// The text of the members of an object, one more in front.
pub(crate) proof fn lemma_first_member(
    key: Seq<char>,
    value: JsonValue,
    rest: Seq<(Seq<char>, JsonValue)>,
)
    requires
        rest.len() > 0,
    ensures
        members_text(seq![(key, value)] + rest) == string_text(key) + seq![':'] + value_text(value)
            + seq![','] + members_text(rest),
{
    let fields = seq![(key, value)] + rest;
    assert(fields.drop_first() =~= rest);
    assert(fields.first() == (key, value));
    assert(members_text(fields) =~= string_text(key) + seq![':'] + value_text(value) + seq![',']
        + members_text(rest));
}

} // verus!
