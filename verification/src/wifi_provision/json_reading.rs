//! Reading JSON: the value under a name of an object, and an item of a list.
use crate::text;
use crate::util;
use crate::wifi_provision::http;
use vstd::prelude::*;

verus! {

/// How many characters of a value stand at the front: all up to the comma or bracket that ends
/// it. `depth` brackets are open, and a string too where `in_string`.
#[verifier::opaque]
pub open spec fn value_length(s: Seq<char>, depth: nat, in_string: bool) -> nat
    decreases s.len(),
{
    if s.len() == 0 {
        0
    } else if in_string {
        if s[0] == '\\' && s.len() >= 2 {
            2 + value_length(s.skip(2), depth, true)
        } else {
            1 + value_length(s.skip(1), depth, s[0] != '"')
        }
    } else if depth == 0 && (s[0] == ',' || s[0] == '}' || s[0] == ']') {
        0
    } else if s[0] == '{' || s[0] == '[' {
        1 + value_length(s.skip(1), depth + 1, false)
    } else if s[0] == '}' || s[0] == ']' {
        1 + value_length(s.skip(1), (depth - 1) as nat, false)
    } else {
        1 + value_length(s.skip(1), depth, s[0] == '"')
    }
}

/// How many characters stand in front of the first quotation mark.
pub open spec fn name_length(s: Seq<char>) -> nat
    decreases s.len(),
{
    if s.len() == 0 || s[0] == '"' {
        0
    } else {
        1 + name_length(s.skip(1))
    }
}

/// The value under a name among the members of an object that `s` starts with.
#[verifier::opaque]
pub open spec fn member(s: Seq<char>, name: Seq<char>) -> Option<Seq<char>>
    decreases s.len(),
{
    let n = name_length(s.skip(1)) as int;
    if s.len() < n + 3 || s[0] != '"' || s[n + 2] != ':' {
        None
    } else {
        let rest = s.skip(n + 3);
        let m = value_length(rest, 0, false) as int;
        if s.subrange(1, n + 1) == name {
            Some(rest.take(m))
        } else if 0 <= m < rest.len() && rest[m] == ',' {
            member(rest.skip(m + 1), name)
        } else {
            None
        }
    }
}

/// The value under a name of a JSON object.
pub open spec fn lookup(object: Seq<char>, name: Seq<char>) -> Option<Seq<char>> {
    if object.len() > 0 && object[0] == '{' {
        member(object.skip(1), name)
    } else {
        None
    }
}

/// The item with a number among the items that `s` starts with.
pub open spec fn nth(s: Seq<char>, i: nat) -> Option<Seq<char>>
    decreases i,
{
    let m = value_length(s, 0, false) as int;
    if m == 0 || m > s.len() {
        None
    } else if i == 0 {
        Some(s.take(m))
    } else if m < s.len() && s[m] == ',' {
        nth(s.skip(m + 1), (i - 1) as nat)
    } else {
        None
    }
}

/// An item of a JSON list, counted from 0.
pub open spec fn item(list: Seq<char>, i: nat) -> Option<Seq<char>> {
    if list.len() > 0 && list[0] == '[' {
        nth(list.skip(1), i)
    } else {
        None
    }
}

/// The text that a JSON string stands for.
pub open spec fn string_value(s: Seq<char>) -> Option<Seq<char>> {
    if s.len() >= 2 && s[0] == '"' && s.last() == '"' {
        util::json_decoded(s.subrange(1, s.len() - 1))
    } else {
        None
    }
}

/// Whether a text, with `low` or more brackets open, is passed over as a whole.
#[verifier::opaque]
pub open spec fn whole(v: Seq<char>, low: nat) -> bool {
    forall|rest: Seq<char>, depth: nat|
        depth >= low ==> #[trigger] value_length(v + rest, depth, false) == v.len() + value_length(
            rest,
            depth,
            false,
        )
}

/// Whether no character of a text opens or ends anything; a comma does so outside brackets.
pub open spec fn plain(v: Seq<char>, low: nat) -> bool {
    forall|i: int|
        0 <= i < v.len() ==> #[trigger] v[i] != '"' && v[i] != '{' && v[i] != '}' && v[i] != '['
            && v[i] != ']' && (v[i] != ',' || low > 0)
}

/// Whether a text can be the name of a member as it stands.
pub open spec fn is_name(key: Seq<char>) -> bool {
    forall|i: int| 0 <= i < key.len() ==> #[trigger] key[i] != '"' && key[i] != '\\'
}

/// A name in quotation marks and the colon behind it.
#[verifier::opaque]
pub open spec fn label(key: Seq<char>) -> Seq<char> {
    seq!['"'] + key + seq!['"', ':']
}

/// What opens and ends nothing is passed over as a whole.
pub proof fn lemma_plain_is_whole(v: Seq<char>, low: nat)
    requires
        plain(v, low),
    ensures
        whole(v, low),
{
    reveal(value_length);
    reveal(member);
    reveal(whole);
    reveal(label);
    assert forall|rest: Seq<char>, depth: nat| depth >= low implies #[trigger] value_length(
        v + rest,
        depth,
        false,
    ) == v.len() + value_length(rest, depth, false) by {
        lemma_plain_is_passed(v, rest, depth);
    }
}

proof fn lemma_plain_is_passed(v: Seq<char>, rest: Seq<char>, depth: nat)
    requires
        plain(v, depth),
    ensures
        value_length(v + rest, depth, false) == v.len() + value_length(rest, depth, false),
    decreases v.len(),
{
    reveal(value_length);
    reveal(member);
    reveal(whole);
    reveal(label);
    let all = v + rest;
    if v.len() > 0 {
        let tail = v.skip(1);
        assert(all[0] == v[0]);
        assert(all.skip(1) =~= tail + rest);
        assert forall|i: int| 0 <= i < tail.len() implies #[trigger] tail[i] != '"' && tail[i]
            != '{' && tail[i] != '}' && tail[i] != '[' && tail[i] != ']' && (tail[i] != ','
            || depth > 0) by {
            assert(tail[i] == v[i + 1]);
        }
        lemma_plain_is_passed(tail, rest, depth);
    } else {
        assert(all =~= rest);
    }
}

/// Two texts that are passed over as a whole are so together.
pub proof fn lemma_joined_is_whole(a: Seq<char>, b: Seq<char>, low: nat)
    requires
        whole(a, low),
        whole(b, low),
    ensures
        whole(a + b, low),
{
    reveal(value_length);
    reveal(member);
    reveal(whole);
    reveal(label);
    assert forall|rest: Seq<char>, depth: nat| depth >= low implies #[trigger] value_length(
        a + b + rest,
        depth,
        false,
    ) == (a + b).len() + value_length(rest, depth, false) by {
        assert(a + b + rest =~= a + (b + rest));
        assert(value_length(a + (b + rest), depth, false) == a.len() + value_length(
            b + rest,
            depth,
            false,
        ));
    }
}

/// What is passed over as a whole is so inside more brackets.
pub proof fn lemma_more_brackets(v: Seq<char>, low: nat, more: nat)
    requires
        whole(v, low),
        low <= more,
    ensures
        whole(v, more),
{
    reveal(value_length);
    reveal(member);
    reveal(whole);
    reveal(label);
}

/// What stands in brackets is passed over with them.
pub proof fn lemma_bracketed_is_whole(inner: Seq<char>, first: char, last: char)
    requires
        whole(inner, 1),
        first == '{' && last == '}' || first == '[' && last == ']',
    ensures
        whole(seq![first] + inner + seq![last], 0),
{
    reveal(value_length);
    reveal(member);
    reveal(whole);
    reveal(label);
    let v = seq![first] + inner + seq![last];
    assert forall|rest: Seq<char>, depth: nat| depth >= 0 implies #[trigger] value_length(
        v + rest,
        depth,
        false,
    ) == v.len() + value_length(rest, depth, false) by {
        let all = v + rest;
        let ending = seq![last] + rest;
        assert(all[0] == first);
        assert(all.skip(1) =~= inner + ending);
        assert(value_length(inner + ending, depth + 1, false) == inner.len() + value_length(
            ending,
            depth + 1,
            false,
        ));
        assert(ending.skip(1) =~= rest);
    }
}

proof fn lemma_name_is_passed(key: Seq<char>, rest: Seq<char>, depth: nat)
    requires
        is_name(key),
    ensures
        value_length(key + rest, depth, true) == key.len() + value_length(rest, depth, true),
    decreases key.len(),
{
    reveal(value_length);
    reveal(member);
    reveal(whole);
    reveal(label);
    let all = key + rest;
    if key.len() > 0 {
        let tail = key.skip(1);
        assert(all[0] == key[0]);
        assert(all.skip(1) =~= tail + rest);
        assert forall|i: int| 0 <= i < tail.len() implies #[trigger] tail[i] != '"' && tail[i]
            != '\\' by {
            assert(tail[i] == key[i + 1]);
        }
        lemma_name_is_passed(tail, rest, depth);
    } else {
        assert(all =~= rest);
    }
}

/// A name and its colon are passed over as a whole.
pub proof fn lemma_label_is_whole(key: Seq<char>)
    requires
        is_name(key),
    ensures
        whole(label(key), 0),
{
    reveal(value_length);
    reveal(member);
    reveal(whole);
    reveal(label);
    let v = label(key);
    assert forall|rest: Seq<char>, depth: nat| depth >= 0 implies #[trigger] value_length(
        v + rest,
        depth,
        false,
    ) == v.len() + value_length(rest, depth, false) by {
        let all = v + rest;
        let behind = seq!['"', ':'] + rest;
        assert(all[0] == '"');
        assert(all.skip(1) =~= key + behind);
        lemma_name_is_passed(key, behind, depth);
        let colon = behind.skip(1);
        assert(behind[0] == '"' && colon[0] == ':');
        assert(value_length(behind, depth, true) == 1 + value_length(colon, depth, false));
        assert(colon.skip(1) =~= rest);
        assert(value_length(colon, depth, false) == 1 + value_length(rest, depth, false));
    }
}

proof fn lemma_escape_is_passed(c: char, rest: Seq<char>, depth: nat)
    ensures
        value_length(util::escaped_char(c) + rest, depth, true) == util::escaped_char(c).len()
            + value_length(rest, depth, true),
{
    reveal(value_length);
    reveal(member);
    reveal(whole);
    reveal(label);
    let head = util::escaped_char(c);
    let all = head + rest;
    assert(all[0] == head[0]);
    if head.len() == 1 {
        assert(all.skip(1) =~= rest);
    } else if head.len() == 2 {
        assert(all.skip(2) =~= rest);
    } else {
        let digits = head.skip(2);
        assert(all.skip(2) =~= digits + rest);
        assert(digits[0] == '0' && digits[1] == '0');
        assert(c as u32 <= 0x9f);
        let high = text::hex_digit((c as u32 / 16) as nat);
        let low = text::hex_digit((c as u32 % 16) as nat);
        assert(digits[2] == high && digits[3] == low);
        assert(high != '"' && high != '\\' && low != '"' && low != '\\');
        lemma_name_is_passed(digits, rest, depth);
    }
}

/// A string is passed over up to its end.
pub proof fn lemma_escaped_is_passed(s: Seq<char>, rest: Seq<char>, depth: nat)
    ensures
        value_length(util::json_escaped(s) + rest, depth, true) == util::json_escaped(s).len()
            + value_length(rest, depth, true),
    decreases s.len(),
{
    reveal(value_length);
    reveal(member);
    reveal(whole);
    reveal(label);
    let e = util::json_escaped(s);
    if s.len() > 0 {
        let tail = util::json_escaped(s.skip(1));
        assert(e + rest =~= util::escaped_char(s[0]) + (tail + rest));
        lemma_escape_is_passed(s[0], tail + rest, depth);
        lemma_escaped_is_passed(s.skip(1), rest, depth);
    } else {
        assert(e + rest =~= rest);
    }
}

/// A text in quotation marks is passed over as a whole.
pub proof fn lemma_quoted_is_whole(s: Seq<char>)
    ensures
        whole(http::quoted(s), 0),
{
    reveal(value_length);
    reveal(whole);
    reveal_strlit("\"");
    let e = util::json_escaped(http::visible(s));
    let v = http::quoted(s);
    assert(v =~= seq!['"'] + e + seq!['"']);
    assert forall|rest: Seq<char>, depth: nat| depth >= 0 implies #[trigger] value_length(
        v + rest,
        depth,
        false,
    ) == v.len() + value_length(rest, depth, false) by {
        let all = v + rest;
        let behind = seq!['"'] + rest;
        assert(all[0] == '"');
        assert(all.skip(1) =~= e + behind);
        lemma_escaped_is_passed(http::visible(s), behind, depth);
        assert(behind.skip(1) =~= rest);
    }
}

/// A text in quotation marks stands for the text, with blanks for control characters.
pub proof fn lemma_quoted_is_read_back(s: Seq<char>)
    ensures
        string_value(http::quoted(s)) == Some(http::visible(s)),
{
    reveal_strlit("\"");
    let e = util::json_escaped(http::visible(s));
    let v = http::quoted(s);
    assert(v =~= seq!['"'] + e + seq!['"']);
    util::lemma_escaped_text_decodes(http::visible(s));
    assert(v.subrange(1, v.len() - 1) =~= e);
}

proof fn lemma_name_length(key: Seq<char>, rest: Seq<char>)
    requires
        is_name(key),
        rest.len() > 0 && rest[0] == '"',
    ensures
        name_length(key + rest) == key.len(),
    decreases key.len(),
{
    reveal(value_length);
    reveal(member);
    reveal(whole);
    reveal(label);
    let all = key + rest;
    if key.len() > 0 {
        let tail = key.skip(1);
        assert(all[0] == key[0]);
        assert(all.skip(1) =~= tail + rest);
        assert forall|i: int| 0 <= i < tail.len() implies #[trigger] tail[i] != '"' && tail[i]
            != '\\' by {
            assert(tail[i] == key[i + 1]);
        }
        lemma_name_length(tail, rest);
    } else {
        assert(all =~= rest);
    }
}

/// The first member of an object is found under its name; under another name the search goes on
/// behind it.
pub proof fn lemma_first_member(
    key: Seq<char>,
    value: Seq<char>,
    rest: Seq<char>,
    name: Seq<char>,
)
    requires
        is_name(key),
        whole(value, 0),
        rest.len() > 0,
        rest[0] == ',' || rest[0] == '}',
    ensures
        member(label(key) + value + rest, name) == if key == name {
            Some(value)
        } else if rest[0] == ',' {
            member(rest.skip(1), name)
        } else {
            None
        },
{
    reveal(value_length);
    reveal(member);
    reveal(whole);
    reveal(label);
    let s = label(key) + value + rest;
    let n = key.len() as int;
    let behind = seq!['"', ':'] + value + rest;
    assert(s.skip(1) =~= key + behind);
    assert(behind[0] == '"');
    lemma_name_length(key, behind);
    assert(s[0] == '"' && s[n + 2] == ':');
    assert(s.subrange(1, n + 1) =~= key);
    assert(s.skip(n + 3) =~= value + rest);
    assert(value_length(value + rest, 0, false) == value.len() + value_length(rest, 0, false));
    let m = value.len() as int;
    assert((value + rest).take(m) =~= value);
    assert((value + rest)[m] == rest[0]);
    assert((value + rest).skip(m + 1) =~= rest.skip(1));
}

/// The same for a member behind a comma, as it stands in the text of an object.
pub proof fn lemma_next_member(
    front: Seq<char>,
    key: Seq<char>,
    value: Seq<char>,
    rest: Seq<char>,
    name: Seq<char>,
)
    requires
        front == seq![','] + label(key),
        is_name(key),
        whole(value, 0),
        rest.len() > 0,
        rest[0] == ',' || rest[0] == '}',
    ensures
        ({
            let s = front + value + rest;
            &&& s.len() > 0
            &&& s[0] == ','
            &&& member(s.skip(1), name) == if key == name {
                Some(value)
            } else if rest[0] == ',' {
                member(rest.skip(1), name)
            } else {
                None
            }
        }),
{
    reveal(value_length);
    reveal(member);
    reveal(whole);
    reveal(label);
    let s = front + value + rest;
    assert(s.skip(1) =~= label(key) + value + rest);
    lemma_first_member(key, value, rest, name);
}

/// The text of an object up to its closing bracket, out of what stands in front of the values
/// and the values.
pub open spec fn written(fronts: Seq<Seq<char>>, values: Seq<Seq<char>>) -> Seq<char>
    decreases fronts.len(),
{
    if fronts.len() == 0 {
        Seq::empty()
    } else {
        written(fronts.drop_last(), values.drop_last()) + fronts.last() + values.last()
    }
}

/// Whether what stands in front of the values are their names, behind a bracket or a comma, and
/// the values are passed over as a whole.
#[verifier::opaque]
pub open spec fn well_written(
    fronts: Seq<Seq<char>>,
    keys: Seq<Seq<char>>,
    values: Seq<Seq<char>>,
) -> bool {
    &&& fronts.len() > 0
    &&& keys.len() == fronts.len()
    &&& values.len() == fronts.len()
    &&& fronts[0] == seq!['{'] + label(keys[0])
    &&& forall|i: int| 0 < i < fronts.len() ==> #[trigger] fronts[i] == seq![','] + label(keys[i])
    &&& forall|i: int| 0 <= i < keys.len() ==> is_name(#[trigger] keys[i])
    &&& forall|i: int| 0 <= i < values.len() ==> whole(#[trigger] values[i], 0)
}

/// The first member of an object.
pub proof fn lemma_written_first(front: Seq<char>, key: Seq<char>, value: Seq<char>)
    requires
        front == seq!['{'] + label(key),
        is_name(key),
        whole(value, 0),
    ensures
        well_written(seq![front], seq![key], seq![value]),
        written(seq![front], seq![value]) == front + value,
{
    reveal(well_written);
    reveal_with_fuel(written, 2);
    assert(written(seq![front], seq![value]) =~= front + value);
}

/// One more member of an object.
pub proof fn lemma_written_next(
    fronts: Seq<Seq<char>>,
    keys: Seq<Seq<char>>,
    values: Seq<Seq<char>>,
    front: Seq<char>,
    key: Seq<char>,
    value: Seq<char>,
)
    requires
        well_written(fronts, keys, values),
        front == seq![','] + label(key),
        is_name(key),
        whole(value, 0),
    ensures
        well_written(fronts.push(front), keys.push(key), values.push(value)),
        written(fronts.push(front), values.push(value)) == written(fronts, values) + front + value,
{
    reveal(well_written);
    assert(fronts.push(front).drop_last() =~= fronts);
    assert(values.push(value).drop_last() =~= values);
}

proof fn lemma_written_shorter(
    fronts: Seq<Seq<char>>,
    keys: Seq<Seq<char>>,
    values: Seq<Seq<char>>,
)
    requires
        well_written(fronts, keys, values),
        fronts.len() > 1,
    ensures
        well_written(fronts.drop_last(), keys.drop_last(), values.drop_last()),
        fronts.last() == seq![','] + label(keys.last()),
        is_name(keys.last()),
        whole(values.last(), 0),
{
    reveal(well_written);
    let n = fronts.len() - 1;
    let f = fronts.drop_last();
    let k = keys.drop_last();
    let v = values.drop_last();
    assert forall|i: int| 0 < i < f.len() implies #[trigger] f[i] == seq![','] + label(k[i]) by {
        assert(f[i] == fronts[i]);
    }
    assert forall|i: int| 0 <= i < k.len() implies is_name(#[trigger] k[i]) by {
        assert(k[i] == keys[i]);
    }
    assert forall|i: int| 0 <= i < v.len() implies whole(#[trigger] v[i], 0) by {
        assert(v[i] == values[i]);
    }
    assert(fronts[n] == seq![','] + label(keys[n]));
    assert(is_name(keys[n]));
    assert(whole(values[n], 0));
}

proof fn lemma_written_one(
    fronts: Seq<Seq<char>>,
    keys: Seq<Seq<char>>,
    values: Seq<Seq<char>>,
    rest: Seq<char>,
    name: Seq<char>,
)
    requires
        well_written(fronts, keys, values),
        fronts.len() == 1,
        rest.len() > 0,
        rest[0] == ',' || rest[0] == '}',
    ensures
        lookup(written(fronts, values) + rest, name) == if keys[0] == name {
            Some(values[0])
        } else if rest[0] == ',' {
            member(rest.skip(1), name)
        } else {
            None
        },
{
    reveal(well_written);
    reveal_with_fuel(written, 2);
    assert(is_name(keys[0]) && whole(values[0], 0));
    let all = written(fronts, values) + rest;
    assert(all =~= fronts[0] + values[0] + rest);
    assert(all[0] == '{');
    assert(all.skip(1) =~= label(keys[0]) + values[0] + rest);
    lemma_first_member(keys[0], values[0], rest, name);
}

proof fn lemma_written_is_missed(
    fronts: Seq<Seq<char>>,
    keys: Seq<Seq<char>>,
    values: Seq<Seq<char>>,
    rest: Seq<char>,
    name: Seq<char>,
)
    requires
        well_written(fronts, keys, values),
        forall|j: int| 0 <= j < keys.len() ==> #[trigger] keys[j] != name,
        rest.len() > 0,
        rest[0] == ',' || rest[0] == '}',
    ensures
        lookup(written(fronts, values) + rest, name) == if rest[0] == ',' {
            member(rest.skip(1), name)
        } else {
            None
        },
    decreases fronts.len(),
{
    assert(fronts.len() > 0 && keys.len() == fronts.len()) by {
        reveal(well_written);
    }
    assert(keys[0] != name && keys[keys.len() - 1] != name);
    if fronts.len() == 1 {
        lemma_written_one(fronts, keys, values, rest, name);
    } else {
        lemma_written_shorter(fronts, keys, values);
        let f = fronts.drop_last();
        let k = keys.drop_last();
        let v = values.drop_last();
        let behind = fronts.last() + values.last() + rest;
        assert forall|j: int| 0 <= j < k.len() implies #[trigger] k[j] != name by {
            assert(k[j] == keys[j]);
        }
        lemma_next_member(fronts.last(), keys.last(), values.last(), rest, name);
        lemma_written_is_missed(f, k, v, behind, name);
        assert(written(fronts, values) + rest =~= written(f, v) + behind);
    }
}

/// The value under a name is found in the text of an object: the first with that name.
pub proof fn lemma_written_is_found(
    fronts: Seq<Seq<char>>,
    keys: Seq<Seq<char>>,
    values: Seq<Seq<char>>,
    i: int,
    rest: Seq<char>,
)
    requires
        well_written(fronts, keys, values),
        0 <= i < keys.len(),
        forall|j: int| 0 <= j < i ==> #[trigger] keys[j] != keys[i],
        rest.len() > 0,
        rest[0] == ',' || rest[0] == '}',
    ensures
        lookup(written(fronts, values) + rest, keys[i]) == Some(values[i]),
    decreases fronts.len(),
{
    assert(fronts.len() > 0 && keys.len() == fronts.len() && values.len() == fronts.len()) by {
        reveal(well_written);
    }
    let name = keys[i];
    if fronts.len() == 1 {
        lemma_written_one(fronts, keys, values, rest, name);
    } else {
        lemma_written_shorter(fronts, keys, values);
        let f = fronts.drop_last();
        let k = keys.drop_last();
        let v = values.drop_last();
        let behind = fronts.last() + values.last() + rest;
        assert(written(fronts, values) + rest =~= written(f, v) + behind);
        lemma_next_member(fronts.last(), keys.last(), values.last(), rest, name);
        if i < k.len() {
            assert(k[i] == name && v[i] == values[i]);
            assert forall|j: int| 0 <= j < i implies #[trigger] k[j] != k[i] by {
                assert(k[j] == keys[j]);
            }
            lemma_written_is_found(f, k, v, i, behind);
        } else {
            assert forall|j: int| 0 <= j < k.len() implies #[trigger] k[j] != name by {
                assert(k[j] == keys[j]);
            }
            lemma_written_is_missed(f, k, v, behind, name);
        }
    }
}

proof fn lemma_written_inside_is_whole(
    fronts: Seq<Seq<char>>,
    keys: Seq<Seq<char>>,
    values: Seq<Seq<char>>,
)
    requires
        well_written(fronts, keys, values),
    ensures
        written(fronts, values).len() > 0,
        written(fronts, values)[0] == '{',
        whole(written(fronts, values).skip(1), 1),
    decreases fronts.len(),
{
    assert(fronts.len() > 0 && keys.len() == fronts.len() && values.len() == fronts.len()) by {
        reveal(well_written);
    }
    let all = written(fronts, values);
    if fronts.len() == 1 {
        reveal(well_written);
        reveal_with_fuel(written, 2);
        assert(is_name(keys[0]) && whole(values[0], 0));
        assert(all.skip(1) =~= label(keys[0]) + values[0]);
        lemma_label_is_whole(keys[0]);
        lemma_joined_is_whole(label(keys[0]), values[0], 0);
        lemma_more_brackets(all.skip(1), 0, 1);
    } else {
        lemma_written_shorter(fronts, keys, values);
        let f = fronts.drop_last();
        let v = values.drop_last();
        let front = fronts.last();
        let value = values.last();
        lemma_written_inside_is_whole(f, keys.drop_last(), v);
        let inside = written(f, v).skip(1);
        lemma_label_is_whole(keys.last());
        lemma_more_brackets(label(keys.last()), 0, 1);
        lemma_more_brackets(value, 0, 1);
        lemma_plain_is_whole(seq![','], 1);
        lemma_joined_is_whole(seq![','], label(keys.last()), 1);
        lemma_joined_is_whole(inside, front, 1);
        lemma_joined_is_whole(inside + front, value, 1);
        assert(all.skip(1) =~= inside + front + value);
    }
}

/// The text of an object is passed over as a whole.
pub proof fn lemma_written_is_whole(
    fronts: Seq<Seq<char>>,
    keys: Seq<Seq<char>>,
    values: Seq<Seq<char>>,
)
    requires
        well_written(fronts, keys, values),
    ensures
        whole(written(fronts, values) + seq!['}'], 0),
{
    lemma_written_inside_is_whole(fronts, keys, values);
    let all = written(fronts, values);
    lemma_bracketed_is_whole(all.skip(1), '{', '}');
    assert(all + seq!['}'] =~= seq!['{'] + all.skip(1) + seq!['}']);
}

/// The items of a list with commas between them.
pub open spec fn joined(items: Seq<Seq<char>>) -> Seq<char>
    decreases items.len(),
{
    if items.len() == 0 {
        Seq::empty()
    } else if items.len() == 1 {
        items[0]
    } else {
        joined(items.drop_last()) + seq![','] + items.last()
    }
}

/// Whether every item of a list is passed over as a whole and has characters.
pub open spec fn whole_items(items: Seq<Seq<char>>) -> bool {
    forall|i: int| 0 <= i < items.len() ==> whole(#[trigger] items[i], 0) && items[i].len() > 0
}

proof fn lemma_one_item(v: Seq<char>, rest: Seq<char>)
    requires
        whole(v, 0),
        v.len() > 0,
        rest.len() > 0,
        rest[0] == ',' || rest[0] == ']',
    ensures
        nth(v + rest, 0) == Some(v),
        rest[0] == ',' ==> forall|i: nat| i > 0 ==> #[trigger] nth(v + rest, i) == nth(
            rest.skip(1),
            (i - 1) as nat,
        ),
        rest[0] == ']' ==> forall|i: nat| i > 0 ==> (#[trigger] nth(v + rest, i)) is None,
{
    reveal(value_length);
    reveal(member);
    reveal(whole);
    reveal(label);
    let all = v + rest;
    let m = v.len() as int;
    assert(value_length(v + rest, 0, false) == v.len() + value_length(rest, 0, false));
    assert(all.take(m) =~= v);
    assert(all[m] == rest[0]);
    assert(all.skip(m + 1) =~= rest.skip(1));
}

proof fn lemma_items_are_found(items: Seq<Seq<char>>, rest: Seq<char>, i: nat)
    requires
        items.len() > 0,
        whole_items(items),
        rest.len() > 0,
        rest[0] == ',' || rest[0] == ']',
    ensures
        i < items.len() ==> nth(joined(items) + rest, i) == Some(items[i as int]),
        i >= items.len() && rest[0] == ',' ==> nth(joined(items) + rest, i) == nth(
            rest.skip(1),
            (i - items.len()) as nat,
        ),
        i >= items.len() && rest[0] == ']' ==> nth(joined(items) + rest, i) is None,
    decreases items.len(),
{
    reveal(value_length);
    reveal(member);
    reveal(whole);
    reveal(label);
    assert(whole(items.last(), 0) && items.last().len() > 0);
    if items.len() == 1 {
        lemma_one_item(items[0], rest);
    } else {
        let front = items.drop_last();
        let behind = seq![','] + items.last() + rest;
        assert forall|k: int| 0 <= k < front.len() implies whole(#[trigger] front[k], 0)
            && front[k].len() > 0 by {
            assert(front[k] == items[k]);
        }
        assert(joined(items) + rest =~= joined(front) + behind);
        lemma_items_are_found(front, behind, i);
        assert(behind.skip(1) =~= items.last() + rest);
        lemma_one_item(items.last(), rest);
    }
}

proof fn lemma_joined_items_are_whole(items: Seq<Seq<char>>)
    requires
        whole_items(items),
    ensures
        whole(joined(items), 1),
    decreases items.len(),
{
    reveal(value_length);
    reveal(member);
    reveal(whole);
    reveal(label);
    if items.len() == 0 {
        lemma_plain_is_whole(joined(items), 1);
    } else {
        assert(whole(items.last(), 0));
        lemma_more_brackets(items.last(), 0, 1);
        if items.len() > 1 {
            let front = items.drop_last();
            assert forall|k: int| 0 <= k < front.len() implies whole(#[trigger] front[k], 0)
                && front[k].len() > 0 by {
                assert(front[k] == items[k]);
            }
            lemma_joined_items_are_whole(front);
            lemma_plain_is_whole(seq![','], 1);
            lemma_joined_is_whole(joined(front), seq![','], 1);
            lemma_joined_is_whole(joined(front) + seq![','], items.last(), 1);
        }
    }
}

/// The items of a list are found by their numbers, and no others.
pub proof fn lemma_list_items(items: Seq<Seq<char>>, i: nat)
    requires
        whole_items(items),
    ensures
        ({
            let list = seq!['['] + joined(items) + seq![']'];
            &&& item(list, i) == if i < items.len() {
                Some(items[i as int])
            } else {
                None
            }
            &&& whole(list, 0)
        }),
{
    reveal(value_length);
    reveal(member);
    reveal(whole);
    reveal(label);
    let list = seq!['['] + joined(items) + seq![']'];
    lemma_joined_items_are_whole(items);
    lemma_bracketed_is_whole(joined(items), '[', ']');
    assert(list[0] == '[');
    assert(list.skip(1) =~= joined(items) + seq![']']);
    if items.len() == 0 {
        assert(list.skip(1)[0] == ']');
    } else {
        lemma_items_are_found(items, seq![']'], i);
    }
}

} // verus!
