//! The formatting of log lines and notices: plain and raw lines, colored
//! lines with the pod's workload and JSON messages highlighted (HTTP
//! statuses colored by class), and lines filled in from a template.
use vstd::prelude::*;
use colored::Colorize;
use crate::pod::{ContainerInfo, OwnerRef, OwnerRefView, PodInfo, PodView};
use crate::tailer::LogEvent;
use crate::time::{Timestamp, format_rfc3339, rfc3339_text};
use crate::text::{
    append_chars, append_str, ascii_lowercase, ascii_lowercase_exec, chars_of, is_hex_digit,
    last_index_of, parse_u16, parse_u16_exec, replace_all, replace_exec, rfind_char, str_equals,
    string_of, sub_chars, contains_text, occurs_at,
};

verus! {

// ---------------------------------------------------------------------------
// Colors
// ---------------------------------------------------------------------------
/// The foreground colors the output uses.
pub enum Paint {
    Cyan,
    Yellow,
    Green,
    Blue,
    Magenta,
    BrightBlack,
    BrightRed,
    Red,
}

/// The SGR parameter of a foreground color.
pub open spec fn color_code(p: Paint) -> Seq<char> {
    match p {
        Paint::Cyan => "36"@,
        Paint::Yellow => "33"@,
        Paint::Green => "32"@,
        Paint::Blue => "34"@,
        Paint::Magenta => "35"@,
        Paint::BrightBlack => "90"@,
        Paint::BrightRed => "91"@,
        Paint::Red => "31"@,
    }
}

/// The escape sequence that selects the SGR parameters.
pub open spec fn sgr(params: Seq<char>) -> Seq<char> {
    "\u{1b}["@ + params + "m"@
}

/// The escape sequence that resets all attributes.
pub open spec fn reset_seq() -> Seq<char> {
    "\u{1b}[0m"@
}

/// `out` is the text `s` as the `colored` crate renders it with the SGR
/// parameters: unchanged when coloring is off, and otherwise wrapped in the
/// style and a reset, with the style restored after each reset inside `s`.
pub open spec fn painted(out: Seq<char>, s: Seq<char>, params: Seq<char>) -> bool {
    ||| out == s
    ||| out == sgr(params) + replace_all(s, reset_seq(), reset_seq() + sgr(params)) + reset_seq()
}

/// `colored::Colorize::color` with the given color, rendered through
/// `Display`: whether it colors depends on `colored`'s view of the
/// environment, so the contract says what holds either way.
#[verifier::external_body]
fn paint(s: &str, p: Paint) -> (r: String)
    ensures
        painted(r@, s@, color_code(p)),
{
    let c = match p {
        Paint::Cyan => colored::Color::Cyan,
        Paint::Yellow => colored::Color::Yellow,
        Paint::Green => colored::Color::Green,
        Paint::Blue => colored::Color::Blue,
        Paint::Magenta => colored::Color::Magenta,
        Paint::BrightBlack => colored::Color::BrightBlack,
        Paint::BrightRed => colored::Color::BrightRed,
        Paint::Red => colored::Color::Red,
    };
    s.color(c).to_string()
}

/// `colored::ColoredString::bold` of the text in the given color, rendered
/// through `Display`; as for `paint`, with the parameters `1;<color>`.
#[verifier::external_body]
fn paint_bold(s: &str, p: Paint) -> (r: String)
    ensures
        painted(r@, s@, "1;"@ + color_code(p)),
{
    let c = match p {
        Paint::Cyan => colored::Color::Cyan,
        Paint::Yellow => colored::Color::Yellow,
        Paint::Green => colored::Color::Green,
        Paint::Blue => colored::Color::Blue,
        Paint::Magenta => colored::Color::Magenta,
        Paint::BrightBlack => colored::Color::BrightBlack,
        Paint::BrightRed => colored::Color::BrightRed,
        Paint::Red => colored::Color::Red,
    };
    s.color(c).bold().to_string()
}

/// `atty::is(Stream::Stdout)`: whether standard output is a terminal. It
/// depends on the process's environment; nothing is promised of it.
#[verifier::external_body]
fn stdout_is_tty() -> (b: bool) {
    atty::is(atty::Stream::Stdout)
}

// ---------------------------------------------------------------------------
// Numbers and HTTP statuses
// ---------------------------------------------------------------------------
/// The character of a decimal digit.
pub open spec fn digit_char(d: nat) -> char {
    ((d + 48) as u32) as char
}

/// The decimal text of a number (as `Display` writes integers).
pub open spec fn decimal(n: nat) -> Seq<char>
    decreases n,
{
    if n < 10 {
        seq![digit_char(n)]
    } else {
        decimal(n / 10).push(digit_char(n % 10))
    }
}

/// The decimal text of a number.
pub fn decimal_exec(n: u64) -> (r: Vec<char>)
    ensures
        r@ == decimal(n as nat),
    decreases n,
{
    let d: u8 = (n % 10) as u8;
    let c: char = (d + 48) as char;
    if n < 10 {
        let mut v: Vec<char> = Vec::new();
        v.push(c);
        v
    } else {
        let mut v = decimal_exec(n / 10);
        v.push(c);
        v
    }
}

/// The parameters of the color of an HTTP status, by class: informational
/// cyan, success bold green, redirection yellow, client error bright red,
/// server error bold red, anything else blue.
pub open spec fn status_params(status: u16) -> Seq<char> {
    if 100 <= status <= 199 {
        color_code(Paint::Cyan)
    } else if 200 <= status <= 299 {
        "1;"@ + color_code(Paint::Green)
    } else if 300 <= status <= 399 {
        color_code(Paint::Yellow)
    } else if 400 <= status <= 499 {
        color_code(Paint::BrightRed)
    } else if 500 <= status <= 599 {
        "1;"@ + color_code(Paint::Red)
    } else {
        color_code(Paint::Blue)
    }
}

/// The text in the color of the HTTP status's class.
fn paint_status(text: &str, status: u16) -> (r: String)
    ensures
        painted(r@, text@, status_params(status)),
{
    if 100 <= status && status <= 199 {
        paint(text, Paint::Cyan)
    } else if 200 <= status && status <= 299 {
        paint_bold(text, Paint::Green)
    } else if 300 <= status && status <= 399 {
        paint(text, Paint::Yellow)
    } else if 400 <= status && status <= 499 {
        paint(text, Paint::BrightRed)
    } else if 500 <= status && status <= 599 {
        paint_bold(text, Paint::Red)
    } else {
        paint(text, Paint::Blue)
    }
}

/// An HTTP status, colored by its class.
pub fn colorize_http_status(status: u16) -> (r: String)
    ensures
        painted(r@, decimal(status as nat), status_params(status)),
{
    let text = string_of(&decimal_exec(status as u64));
    paint_status(text.as_str(), status)
}

/// The key names, in lower case, whose values are HTTP statuses.
pub open spec fn is_status_key_name(k: Seq<char>) -> bool {
    ||| k == "status"@
    ||| k == "status_code"@
    ||| k == "statuscode"@
    ||| k == "http_status"@
    ||| k == "httpstatus"@
    ||| k == "http_status_code"@
    ||| k == "response_status"@
}

/// The JSON key names, in any ASCII letter case, an HTTP status.
pub open spec fn is_http_status_key(key: Option<Seq<char>>) -> bool {
    match key {
        Some(k) => is_status_key_name(ascii_lowercase(k)),
        None => false,
    }
}

/// Whether the JSON key names an HTTP status.
pub fn is_http_status_key_exec(key: Option<&Vec<char>>) -> (b: bool)
    ensures
        b == is_http_status_key(
            match key {
                Some(k) => Some(k@),
                None => None,
            },
        ),
{
    match key {
        Some(k) => {
            let l = ascii_lowercase_exec(k);
            str_equals("status", &l) || str_equals("status_code", &l) || str_equals(
                "statuscode",
                &l,
            ) || str_equals("http_status", &l) || str_equals("httpstatus", &l) || str_equals(
                "http_status_code",
                &l,
            ) || str_equals("response_status", &l)
        },
        None => false,
    }
}

// ---------------------------------------------------------------------------
// JSON messages
// ---------------------------------------------------------------------------
/// A JSON number: its text and, when it is a non-negative integer that fits
/// in 64 bits, its value.
pub struct JsonNumber {
    pub text: String,
    pub as_u64: Option<u64>,
}

/// A JSON value, as a message read as JSON gives it; object members in their
/// order.
pub enum JsonValue {
    Null,
    Bool(bool),
    Number(JsonNumber),
    String(String),
    Array(Vec<JsonValue>),
    Object(Vec<(String, JsonValue)>),
}

#[verifier::external_type_specification]
#[verifier::external_body]
pub struct ExJsonValue(serde_json::Value);

/// The JSON document that `serde_json::from_str::<serde_json::Value>` reads
/// from the text, as the library's value; `None` when it is not JSON.
pub uninterp spec fn json_document(text: Seq<char>) -> Option<JsonValue>;

/// The library's value for a `serde_json::Value`, variant for variant: a
/// number keeps its `Display` text and `as_u64`, an object its members in
/// the map's order. Only `parse_json` calls it; its result is stated there,
/// through `json_document`.
#[verifier::external_body]
fn json_value_of(v: &serde_json::Value) -> JsonValue {
    match v {
        serde_json::Value::Null => JsonValue::Null,
        serde_json::Value::Bool(b) => JsonValue::Bool(*b),
        serde_json::Value::Number(n) => JsonValue::Number(
            JsonNumber { text: n.to_string(), as_u64: n.as_u64() },
        ),
        serde_json::Value::String(s) => JsonValue::String(s.clone()),
        serde_json::Value::Array(a) => JsonValue::Array(a.iter().map(json_value_of).collect()),
        serde_json::Value::Object(m) => JsonValue::Object(
            m.iter().map(|(k, x)| (k.clone(), json_value_of(x))).collect(),
        ),
    }
}

/// `serde_json::from_str::<serde_json::Value>` of the text, converted to the
/// library's value: the result is `json_document(text)`. The text of each
/// number is what `serde_json::Number` displays (digits, sign, point and
/// exponent), so it holds no escape character.
#[verifier::external_body]
pub fn parse_json(text: &str) -> (r: Option<JsonValue>)
    ensures
        r == json_document(text@),
        r matches Some(v) ==> plain_numbers(v),
{
    match serde_json::from_str::<serde_json::Value>(text) {
        Ok(v) => Some(json_value_of(&v)),
        Err(_) => None,
    }
}

/// The lower-case hexadecimal digit of a value below 16.
pub open spec fn hex_digit(d: nat) -> char {
    if d < 10 {
        ((d + 48) as u32) as char
    } else {
        ((d + 87) as u32) as char
    }
}

/// How a character stands inside a JSON string: `"` and `\` after a
/// backslash; backspace, tab, line feed, form feed and carriage return as
/// `\b`, `\t`, `\n`, `\f`, `\r`; any other character below U+0020 as `\u00`
/// and two lower-case hexadecimal digits; every other character as itself.
pub open spec fn json_escape_char(c: char) -> Seq<char> {
    if c == '"' {
        seq!['\\', '"']
    } else if c == '\\' {
        seq!['\\', '\\']
    } else if c == '\u{8}' {
        seq!['\\', 'b']
    } else if c == '\t' {
        seq!['\\', 't']
    } else if c == '\n' {
        seq!['\\', 'n']
    } else if c == '\u{c}' {
        seq!['\\', 'f']
    } else if c == '\r' {
        seq!['\\', 'r']
    } else if (c as u32) < 0x20 {
        seq!['\\', 'u', '0', '0', hex_digit((c as u32) as nat / 16), hex_digit((c as u32) as nat % 16)]
    } else {
        seq![c]
    }
}

/// The text with each character as it stands inside a JSON string.
pub open spec fn json_escape(s: Seq<char>) -> Seq<char>
    decreases s.len(),
{
    if s.len() == 0 {
        Seq::empty()
    } else {
        json_escape(s.drop_last()) + json_escape_char(s.last())
    }
}

/// `serde_json`'s compact text of a JSON string (the `Display` of
/// `serde_json::Value::String`): the text escaped as `json_escape` says,
/// between double quotes.
#[verifier::external_body]
fn json_quoted(s: &str) -> (r: String)
    ensures
        r@ == seq!['"'] + json_escape(s@) + seq!['"'],
{
    serde_json::Value::String(s.to_string()).to_string()
}

/// The text with each character as it stands inside a JSON string.
pub fn json_escaped(s: &str) -> (r: String)
    ensures
        r@ == json_escape(s@),
{
    let q = chars_of(json_quoted(s).as_str());
    let inner = sub_chars(&q, 1, q.len() - 1);
    assert(inner@ =~= json_escape(s@));
    string_of(&inner)
}

/// The parts joined, with `sep` between two neighbours.
pub open spec fn join(parts: Seq<Seq<char>>, sep: Seq<char>) -> Seq<char>
    decreases parts.len(),
{
    if parts.len() == 0 {
        Seq::empty()
    } else if parts.len() == 1 {
        parts[0]
    } else {
        join(parts.drop_last(), sep) + sep + parts.last()
    }
}

/// `out` is `s` painted, between double quotes.
pub open spec fn quoted_painted(out: Seq<char>, s: Seq<char>, params: Seq<char>) -> bool {
    &&& out.len() >= 2
    &&& out[0] == '"'
    &&& out[out.len() - 1] == '"'
    &&& painted(out.subrange(1, out.len() - 1), s, params)
}

/// The texts `"<key>":<value>` of object members.
pub open spec fn member_texts(keys: Seq<Seq<char>>, vals: Seq<Seq<char>>) -> Seq<Seq<char>> {
    Seq::new(keys.len(), |i: int| seq!['"'] + keys[i] + seq!['"', ':'] + vals[i])
}

/// `out` is a highlighted rendering of the JSON value whose member key (if
/// it is a member's value) is `key`: the compact JSON text with keys cyan,
/// strings green, numbers blue,
/// booleans magenta, null bright black; a string or number under a key that
/// names an HTTP status and that reads as one is colored by its status
/// class; compact layout, members in order.
pub open spec fn renders(v: JsonValue, key: Option<Seq<char>>, out: Seq<char>) -> bool
    decreases v,
{
    match v {
        JsonValue::Null => painted(out, "null"@, color_code(Paint::BrightBlack)),
        JsonValue::Bool(b) => painted(
            out,
            if b {
                "true"@
            } else {
                "false"@
            },
            color_code(Paint::Magenta),
        ),
        JsonValue::Number(n) => if is_http_status_key(key) && n.as_u64 is Some && n.as_u64->0
            <= u16::MAX {
            painted(out, n.text@, status_params(n.as_u64->0 as u16))
        } else {
            painted(out, n.text@, color_code(Paint::Blue))
        },
        JsonValue::String(s) => if is_http_status_key(key) && parse_u16(s@) is Some {
            quoted_painted(out, json_escape(s@), status_params(parse_u16(s@)->0))
        } else {
            quoted_painted(out, json_escape(s@), color_code(Paint::Green))
        },
        JsonValue::Array(items) => exists|parts: Seq<Seq<char>>|
            #![trigger join(parts, seq![','])]
            {
                &&& parts.len() == items@.len()
                &&& forall|i: int|
                    0 <= i < items@.len() ==> renders(items@[i], key, #[trigger] parts[i])
                &&& out == seq!['['] + join(parts, seq![',']) + seq![']']
            },
        JsonValue::Object(members) => exists|keys: Seq<Seq<char>>, vals: Seq<Seq<char>>|
            #![trigger member_texts(keys, vals)]
            {
                &&& keys.len() == members@.len()
                &&& vals.len() == members@.len()
                &&& forall|i: int|
                    0 <= i < members@.len() ==> painted(
                        #[trigger] keys[i],
                        json_escape(members@[i].0@),
                        color_code(Paint::Cyan),
                    )
                &&& forall|i: int|
                    0 <= i < members@.len() ==> renders(
                        members@[i].1,
                        Some(members@[i].0@),
                        #[trigger] vals[i],
                    )
                &&& out == seq!['{'] + join(member_texts(keys, vals), seq![',']) + seq!['}']
            },
    }
}

/// The compact JSON text of the value (as `serde_json` writes it): no
/// white space, members in order.
pub open spec fn compact_json(v: JsonValue) -> Seq<char>
    decreases v,
{
    match v {
        JsonValue::Null => "null"@,
        JsonValue::Bool(b) => if b {
            "true"@
        } else {
            "false"@
        },
        JsonValue::Number(n) => n.text@,
        JsonValue::String(s) => seq!['"'] + json_escape(s@) + seq!['"'],
        JsonValue::Array(items) => {
            proof {
                assert(decreases_to!(v => items@));
            }
            seq!['['] + join(compact_items(items@), seq![',']) + seq![']']
        },
        JsonValue::Object(members) => {
            proof {
                assert(decreases_to!(v => members@));
            }
            seq!['{'] + join(compact_members(members@), seq![',']) + seq!['}']
        },
    }
}

/// The compact texts of the values.
pub open spec fn compact_items(s: Seq<JsonValue>) -> Seq<Seq<char>>
    decreases s,
{
    if s.len() == 0 {
        Seq::empty()
    } else {
        compact_items(s.drop_last()).push(compact_json(s.last()))
    }
}

/// The compact texts `"<key>":<value>` of object members.
pub open spec fn compact_members(s: Seq<(String, JsonValue)>) -> Seq<Seq<char>>
    decreases s,
{
    if s.len() == 0 {
        Seq::empty()
    } else {
        compact_members(s.drop_last()).push(
            seq!['"'] + json_escape(s.last().0@) + seq!['"', ':'] + compact_json(s.last().1),
        )
    }
}

/// Appends `part` to the joined parts so far.
fn join_step(out: &mut Vec<char>, parts: Ghost<Seq<Seq<char>>>, first: bool, part: &Vec<char>)
    requires
        old(out)@ == join(parts@, seq![',']),
        first == (parts@.len() == 0),
    ensures
        final(out)@ == join(parts@.push(part@), seq![',']),
{
    if !first {
        out.push(',');
        assert(parts@.push(part@).drop_last() =~= parts@);
    }
    append_chars(out, part);
    proof {
        if parts@.len() == 0 {
            assert(old(out)@ =~= Seq::<char>::empty());
            assert(final(out)@ =~= part@);
        } else {
            assert(final(out)@ =~= join(parts@, seq![',']) + seq![','] + part@);
        }
    }
}

/// A highlighted rendering of the JSON value.
pub fn colorize_json(v: &JsonValue, key: Option<&Vec<char>>) -> (r: String)
    ensures
        renders(
            *v,
            match key {
                Some(k) => Some(k@),
                None => None,
            },
            r@,
        ),
    decreases v,
{
    let ghost kv = match key {
        Some(k) => Some(k@),
        None => None::<Seq<char>>,
    };
    match v {
        JsonValue::Null => paint("null", Paint::BrightBlack),
        JsonValue::Bool(b) => {
            if *b {
                paint("true", Paint::Magenta)
            } else {
                paint("false", Paint::Magenta)
            }
        },
        JsonValue::Number(n) => {
            if is_http_status_key_exec(key) {
                if let Some(x) = n.as_u64 {
                    if x <= 65535 {
                        return paint_status(n.text.as_str(), x as u16);
                    }
                }
            }
            paint(n.text.as_str(), Paint::Blue)
        },
        JsonValue::String(s) => {
            let mut out: Vec<char> = Vec::new();
            out.push('"');
            let escaped = json_escaped(s.as_str());
            let inner = if is_http_status_key_exec(key) {
                let sc = chars_of(s.as_str());
                match parse_u16_exec(&sc) {
                    Some(status) => paint_status(escaped.as_str(), status),
                    None => paint(escaped.as_str(), Paint::Green),
                }
            } else {
                paint(escaped.as_str(), Paint::Green)
            };
            append_str(&mut out, inner.as_str());
            out.push('"');
            assert(out@.subrange(1, out@.len() - 1) =~= inner@);
            string_of(&out)
        },
        JsonValue::Array(items) => {
            let mut out: Vec<char> = Vec::new();
            let ghost mut parts: Seq<Seq<char>> = Seq::empty();
            let mut i: usize = 0;
            while i < items.len()
                invariant
                    i <= items@.len(),
                    parts.len() == i,
                    forall|j: int| 0 <= j < i ==> renders(items@[j], kv, #[trigger] parts[j]),
                    out@ == join(parts, seq![',']),
                    *v == JsonValue::Array(*items),
                    kv == match key {
                        Some(k) => Some(k@),
                        None => None::<Seq<char>>,
                    },
                decreases items@.len() - i,
            {
                proof {
                    assert(decreases_to!(*v => (*v)->Array_0));
                    assert(decreases_to!(*items => items[i as int]));
                }
                let part = colorize_json(&items[i], key);
                let pc = chars_of(part.as_str());
                join_step(&mut out, Ghost(parts), i == 0, &pc);
                proof {
                    parts = parts.push(part@);
                }
                i = i + 1;
            }
            let mut r: Vec<char> = Vec::new();
            r.push('[');
            append_chars(&mut r, &out);
            r.push(']');
            assert(r@ =~= seq!['['] + join(parts, seq![',']) + seq![']']);
            string_of(&r)
        },
        JsonValue::Object(members) => {
            let mut out: Vec<char> = Vec::new();
            let ghost mut keys: Seq<Seq<char>> = Seq::empty();
            let ghost mut vals: Seq<Seq<char>> = Seq::empty();
            let mut i: usize = 0;
            while i < members.len()
                invariant
                    i <= members@.len(),
                    keys.len() == i,
                    vals.len() == i,
                    forall|j: int|
                        0 <= j < i ==> painted(
                            #[trigger] keys[j],
                            json_escape(members@[j].0@),
                            color_code(Paint::Cyan),
                        ),
                    forall|j: int|
                        0 <= j < i ==> renders(
                            members@[j].1,
                            Some(members@[j].0@),
                            #[trigger] vals[j],
                        ),
                    out@ == join(member_texts(keys, vals), seq![',']),
                    *v == JsonValue::Object(*members),
                decreases members@.len() - i,
            {
                let (k, val) = &members[i];
                proof {
                    assert(decreases_to!(*v => (*v)->Object_0));
                    assert(decreases_to!(*members => members[i as int]));
                    assert(decreases_to!(members[i as int] => members[i as int].1));
                }
                let kc = chars_of(k.as_str());
                let kp = paint(json_escaped(k.as_str()).as_str(), Paint::Cyan);
                let vp = colorize_json(val, Some(&kc));
                let mut m: Vec<char> = Vec::new();
                m.push('"');
                append_str(&mut m, kp.as_str());
                m.push('"');
                m.push(':');
                append_str(&mut m, vp.as_str());
                assert(m@ =~= seq!['"'] + kp@ + seq!['"', ':'] + vp@);
                join_step(&mut out, Ghost(member_texts(keys, vals)), i == 0, &m);
                proof {
                    assert(member_texts(keys.push(kp@), vals.push(vp@)) =~= member_texts(
                        keys,
                        vals,
                    ).push(m@));
                    keys = keys.push(kp@);
                    vals = vals.push(vp@);
                }
                i = i + 1;
            }
            let mut r: Vec<char> = Vec::new();
            r.push('{');
            append_chars(&mut r, &out);
            r.push('}');
            assert(r@ =~= seq!['{'] + join(member_texts(keys, vals), seq![',']) + seq!['}']);
            string_of(&r)
        },
    }
}

// ---------------------------------------------------------------------------
// Workloads
// ---------------------------------------------------------------------------
/// The name without the hash suffix that a ReplicaSet adds to its
/// Deployment's name: the part before the last `-`, when what follows it is
/// nine or ten hexadecimal digits.
pub open spec fn without_hash_suffix(name: Seq<char>) -> Option<Seq<char>> {
    match last_index_of(name, '-') {
        Some(i) => {
            let suffix = name.skip(i + 1);
            if 9 <= suffix.len() <= 10 && forall|j: int|
                0 <= j < suffix.len() ==> is_hex_digit(#[trigger] suffix[j]) {
                Some(name.take(i))
            } else {
                None
            }
        },
        None => None,
    }
}

/// The owner kinds that name the workload of a pod.
pub open spec fn is_workload_kind(kind: Seq<char>) -> bool {
    ||| kind == "ReplicaSet"@
    ||| kind == "StatefulSet"@
    ||| kind == "DaemonSet"@
    ||| kind == "Job"@
    ||| kind == "CronJob"@
}

/// The first owner that is a workload.
pub open spec fn first_workload_owner(owners: Seq<OwnerRefView>) -> Option<OwnerRefView>
    decreases owners.len(),
{
    if owners.len() == 0 {
        None
    } else if is_workload_kind(owners[0].kind) {
        Some(owners[0])
    } else {
        first_workload_owner(owners.drop_first())
    }
}

/// The workload a pod belongs to: its first workload owner (a ReplicaSet
/// standing for its Deployment, the hash suffix removed), or else the
/// container's name.
pub open spec fn workload_name(pod: PodView, container: Seq<char>) -> Seq<char> {
    match pod.owner_references {
        Some(owners) => match first_workload_owner(owners) {
            Some(o) => if o.kind == "ReplicaSet"@ {
                match without_hash_suffix(o.name) {
                    Some(d) => d,
                    None => o.name,
                }
            } else {
                o.name
            },
            None => container,
        },
        None => container,
    }
}

/// The name without a ReplicaSet's hash suffix, if it has one.
pub fn strip_hash_suffix(name: &str) -> (r: Option<String>)
    ensures
        match without_hash_suffix(name@) {
            Some(d) => r matches Some(s) && s@ == d,
            None => r is None,
        },
{
    let n = chars_of(name);
    let i = match rfind_char(&n, '-') {
        Some(i) => i,
        None => {
            return None;
        },
    };
    let len = n.len() - (i + 1);
    if len < 9 || len > 10 {
        return None;
    }
    let mut j: usize = i + 1;
    while j < n.len()
        invariant
            i + 1 <= j <= n@.len(),
            name@ == n@,
            last_index_of(n@, '-') == Some(i as int),
            n@.len() - (i + 1) == len,
            9 <= len <= 10,
            forall|t: int| i + 1 <= t < j ==> is_hex_digit(#[trigger] n@[t]),
        decreases n@.len() - j,
    {
        let c = n[j];
        if !(('0' <= c && c <= '9') || ('a' <= c && c <= 'f') || ('A' <= c && c <= 'F')) {
            assert(n@.skip(i + 1)[j - (i + 1)] == c);
            return None;
        }
        j = j + 1;
    }
    assert forall|t: int| 0 <= t < n@.skip(i + 1).len() implies is_hex_digit(
        #[trigger] n@.skip(i + 1)[t],
    ) by {
        assert(n@.skip(i + 1)[t] == n@[t + i + 1]);
    }
    let prefix = sub_chars(&n, 0, i);
    assert(prefix@ =~= n@.take(i as int));
    Some(string_of(&prefix))
}

/// Whether the owner kind is one of the given text.
fn kind_is(kind: &String, name: &str) -> (b: bool)
    ensures
        b == (kind@ == name@),
{
    let k = chars_of(kind.as_str());
    str_equals(name, &k)
}

/// The workload the event's pod belongs to, or the container's name.
pub fn resolve_workload_name(pod: &PodInfo, container: &ContainerInfo) -> (r: String)
    ensures
        r@ == workload_name(pod@, container@),
{
    if let Some(owners) = &pod.owner_references {
        let ghost ov = owners@.map_values(|o: OwnerRef| o@);
        let mut i: usize = 0;
        assert(ov.skip(0) =~= ov);
        while i < owners.len()
            invariant
                i <= owners@.len(),
                ov == owners@.map_values(|o: OwnerRef| o@),
                pod@.owner_references == Some(ov),
                first_workload_owner(ov) == first_workload_owner(ov.skip(i as int)),
            decreases owners@.len() - i,
        {
            let owner = &owners[i];
            assert(ov.skip(i as int)[0] == owner@);
            assert(ov.skip(i as int).drop_first() =~= ov.skip(i + 1));
            if kind_is(&owner.kind, "ReplicaSet") {
                match strip_hash_suffix(owner.name.as_str()) {
                    Some(d) => {
                        return d;
                    },
                    None => {
                        return owner.name.clone();
                    },
                }
            }
            if kind_is(&owner.kind, "StatefulSet") || kind_is(&owner.kind, "DaemonSet") || kind_is(
                &owner.kind,
                "Job",
            ) || kind_is(&owner.kind, "CronJob") {
                return owner.name.clone();
            }
            i = i + 1;
        }
    }
    container.name.clone()
}

// ---------------------------------------------------------------------------
// Log lines
// ---------------------------------------------------------------------------
/// How log lines and notices are written.
pub struct OutputFormatter {
    /// Messages only (with timestamps if asked for).
    pub raw: bool,
    /// Show each line's timestamp.
    pub timestamps: bool,
    /// No notices about containers starting and stopping.
    pub quiet: bool,
    /// Lines filled in from this template.
    pub template: Option<String>,
    /// `auto`, `never` or `always`.
    pub color_mode: String,
    pub color_scheme: String,
    /// Never color.
    pub no_color: bool,
}

/// The timestamp and a space, when timestamps are shown and the line has
/// one.
pub open spec fn ts_prefix(timestamps: bool, ts: Option<Timestamp>) -> Seq<char> {
    if timestamps && ts is Some {
        rfc3339_text(ts->0.secs, ts->0.nanos) + seq![' ']
    } else {
        Seq::empty()
    }
}

/// A raw line: the message, after the timestamp if shown.
pub open spec fn raw_line(f: OutputFormatter, e: LogEvent) -> Seq<char> {
    ts_prefix(f.timestamps, e.timestamp) + e.message@
}

/// Whether the color mode asks for color: `always` yes, `never` no, `auto`
/// when standard output is a terminal, and yes for any other mode.
pub open spec fn should_colorize(mode: Seq<char>, stdout_is_terminal: bool) -> bool {
    if mode == "always"@ {
        true
    } else if mode == "never"@ {
        false
    } else if mode == "auto"@ {
        stdout_is_terminal
    } else {
        true
    }
}

/// The pod's name, or `unknown`.
pub open spec fn shown_pod_name(pod: PodView) -> Seq<char> {
    match pod.name {
        Some(n) => n,
        None => "unknown"@,
    }
}

/// `pod:workload <timestamp> message`.
pub open spec fn line_text(
    pod: Seq<char>,
    workload: Seq<char>,
    ts: Seq<char>,
    msg: Seq<char>,
) -> Seq<char> {
    pod + seq![':'] + workload + seq![' '] + ts + msg
}

/// `out` is the default line for the event: the pod's name and its workload,
/// the timestamp if shown, and the message. In color, the pod's name is cyan,
/// the workload yellow, and a JSON message is highlighted.
pub open spec fn default_line(
    f: OutputFormatter,
    e: LogEvent,
    message_json: Option<JsonValue>,
    stdout_is_terminal: bool,
    out: Seq<char>,
) -> bool {
    let pod = shown_pod_name(e.pod@);
    let workload = workload_name(e.pod@, e.container@);
    let ts = ts_prefix(f.timestamps, e.timestamp);
    if should_colorize(f.color_mode@, stdout_is_terminal) && !f.no_color {
        exists|p: Seq<char>, w: Seq<char>, m: Seq<char>|
            #![trigger line_text(p, w, ts, m)]
            {
                &&& painted(p, pod, color_code(Paint::Cyan))
                &&& painted(w, workload, color_code(Paint::Yellow))
                &&& match message_json {
                    Some(j) => renders(j, None, m),
                    None => m == e.message@,
                }
                &&& out == line_text(p, w, ts, m)
            }
    } else {
        out == line_text(pod, workload, ts, e.message@)
    }
}

/// The name of a template field.
pub open spec fn field_name(k: u8) -> Seq<char> {
    if k == 0 {
        "Pod"@
    } else if k == 1 {
        "Container"@
    } else if k == 2 {
        "Message"@
    } else {
        "Timestamp"@
    }
}

/// The placeholder `{{Name}}` of a template field.
pub open spec fn placeholder(k: u8) -> Seq<char> {
    seq!['{', '{'] + field_name(k) + seq!['}', '}']
}

/// The values of the template fields for the event: `Pod` (its name, or
/// empty), `Container`, `Message`, and `Timestamp` when the line has one.
pub open spec fn template_fields(e: LogEvent) -> Map<u8, Seq<char>> {
    let base = map![
        0u8 => match e.pod@.name { Some(n) => n, None => Seq::<char>::empty() },
        1u8 => e.container@,
        2u8 => e.message@,
    ];
    match e.timestamp {
        Some(t) => base.insert(3u8, rfc3339_text(t.secs, t.nanos)),
        None => base,
    }
}

/// The template with the fields substituted one after the other, in the
/// given order: each replaces every occurrence of its placeholder in the
/// text so far.
pub open spec fn substitute(t: Seq<char>, order: Seq<(u8, Seq<char>)>) -> Seq<char>
    decreases order.len(),
{
    if order.len() == 0 {
        t
    } else {
        replace_all(substitute(t, order.drop_last()), placeholder(order.last().0), order.last().1)
    }
}

/// `out` is the template filled in for the event, its fields substituted in
/// some order (the order of a hash map's iteration, which is not fixed).
pub open spec fn template_line(t: Seq<char>, e: LogEvent, out: Seq<char>) -> bool {
    let fields = template_fields(e);
    exists|order: Seq<(u8, Seq<char>)>|
        #![trigger substitute(t, order)]
        {
            &&& order.len() == fields.len()
            &&& forall|i: int|
                0 <= i < order.len() ==> fields.contains_key(#[trigger] order[i].0) && fields[order[i].0]
                    == order[i].1
            &&& forall|k: u8| #[trigger]
                fields.contains_key(k) ==> exists|i: int| 0 <= i < order.len() && order[i].0 == k
            &&& out == substitute(t, order)
        }
}

/// `out` is the line for the event: from the template if there is one, else
/// raw, else the default line.
pub open spec fn formatted_line(
    f: OutputFormatter,
    e: LogEvent,
    message_json: Option<JsonValue>,
    stdout_is_terminal: bool,
    out: Seq<char>,
) -> bool {
    match f.template {
        Some(t) => template_line(t@, e, out),
        None => if f.raw {
            out == raw_line(f, e)
        } else {
            default_line(f, e, message_json, stdout_is_terminal, out)
        },
    }
}

/// The JSON value, if any.
pub open spec fn opt_json(o: Option<&JsonValue>) -> Option<JsonValue> {
    match o {
        Some(j) => Some(*j),
        None => None,
    }
}

/// The placeholder of a template field.
fn placeholder_exec(k: u8) -> (r: Vec<char>)
    ensures
        r@ == placeholder(k),
{
    let mut v: Vec<char> = Vec::new();
    v.push('{');
    v.push('{');
    if k == 0 {
        append_str(&mut v, "Pod");
    } else if k == 1 {
        append_str(&mut v, "Container");
    } else if k == 2 {
        append_str(&mut v, "Message");
    } else {
        append_str(&mut v, "Timestamp");
    }
    v.push('}');
    v.push('}');
    assert(v@ =~= placeholder(k));
    v
}

impl OutputFormatter {
    pub fn new(
        raw: bool,
        timestamps: bool,
        quiet: bool,
        template: Option<String>,
        color_mode: String,
        color_scheme: String,
        no_color: bool,
    ) -> (f: Self)
        ensures
            f == (OutputFormatter {
                raw,
                timestamps,
                quiet,
                template,
                color_mode,
                color_scheme,
                no_color,
            }),
    {
        OutputFormatter { raw, timestamps, quiet, template, color_mode, color_scheme, no_color }
    }

    /// Whether lines are colored, given whether standard output is a
    /// terminal.
    fn colors_on(&self, stdout_is_terminal: bool) -> (b: bool)
        ensures
            b == (should_colorize(self.color_mode@, stdout_is_terminal) && !self.no_color),
    {
        let mode = chars_of(self.color_mode.as_str());
        let colorize = if str_equals("always", &mode) {
            true
        } else if str_equals("never", &mode) {
            false
        } else if str_equals("auto", &mode) {
            stdout_is_terminal
        } else {
            true
        };
        colorize && !self.no_color
    }

    /// The line for a log event, its message read as JSON (highlighted when
    /// colored). Whether standard output is a terminal is asked only when
    /// the color mode is `auto` and the line is a default line; the message
    /// is read as JSON only when a default line is colored.
    pub fn format_log_event(&self, event: &LogEvent) -> (r: String)
        ensures
            exists|tty: bool|
                #[trigger] formatted_line(
                    *self,
                    *event,
                    json_document(event.message@),
                    tty,
                    r@,
                ),
    {
        let default_line = self.template.is_none() && !self.raw;
        let tty = if default_line && str_equals("auto", &chars_of(self.color_mode.as_str())) {
            stdout_is_tty()
        } else {
            false
        };
        if default_line && self.colors_on(tty) {
            let json = parse_json(event.message.as_str());
            match &json {
                Some(j) => self.format_line(event, Some(j), tty),
                None => self.format_line(event, None, tty),
            }
        } else {
            let r = self.format_line(event, None, tty);
            assert(formatted_line(*self, *event, json_document(event.message@), tty, r@));
            r
        }
    }

    /// The line for a log event, given whether standard output is a
    /// terminal.
    pub fn format_line(
        &self,
        event: &LogEvent,
        message_json: Option<&JsonValue>,
        stdout_is_terminal: bool,
    ) -> (r: String)
        ensures
            formatted_line(
                *self,
                *event,
                opt_json(message_json),
                stdout_is_terminal,
                r@,
            ),
    {
        match &self.template {
            Some(t) => format_with_template(event, t.as_str()),
            None => {
                if self.raw {
                    self.format_raw(event)
                } else {
                    self.format_default(event, message_json, stdout_is_terminal)
                }
            },
        }
    }

    fn push_timestamp(&self, out: &mut Vec<char>, event: &LogEvent)
        ensures
            final(out)@ == old(out)@ + ts_prefix(self.timestamps, event.timestamp),
    {
        if self.timestamps {
            if let Some(ts) = &event.timestamp {
                let text = format_rfc3339(ts);
                append_str(out, text.as_str());
                out.push(' ');
                assert(final(out)@ =~= old(out)@ + ts_prefix(self.timestamps, event.timestamp));
                return ;
            }
        }
        assert(old(out)@ + Seq::<char>::empty() =~= old(out)@);
    }

    fn format_raw(&self, event: &LogEvent) -> (r: String)
        ensures
            r@ == raw_line(*self, *event),
    {
        let mut out: Vec<char> = Vec::new();
        self.push_timestamp(&mut out, event);
        append_str(&mut out, event.message.as_str());
        assert(out@ =~= raw_line(*self, *event));
        string_of(&out)
    }

    fn format_default(
        &self,
        event: &LogEvent,
        message_json: Option<&JsonValue>,
        stdout_is_terminal: bool,
    ) -> (r: String)
        ensures
            default_line(
                *self,
                *event,
                opt_json(message_json),
                stdout_is_terminal,
                r@,
            ),
    {
        let colored = self.colors_on(stdout_is_terminal);
        let pod_name = match &event.pod.name {
            Some(n) => n.clone(),
            None => "unknown".to_string(),
        };
        let workload = resolve_workload_name(&event.pod, &event.container);
        let mut out: Vec<char> = Vec::new();
        let ghost ts = ts_prefix(self.timestamps, event.timestamp);
        if colored {
            let p = paint(pod_name.as_str(), Paint::Cyan);
            let w = paint(workload.as_str(), Paint::Yellow);
            append_str(&mut out, p.as_str());
            out.push(':');
            append_str(&mut out, w.as_str());
            out.push(' ');
            self.push_timestamp(&mut out, event);
            let m = match message_json {
                Some(j) => colorize_json(j, None),
                None => event.message.clone(),
            };
            append_str(&mut out, m.as_str());
            assert(out@ =~= line_text(p@, w@, ts, m@));
        } else {
            append_str(&mut out, pod_name.as_str());
            out.push(':');
            append_str(&mut out, workload.as_str());
            out.push(' ');
            self.push_timestamp(&mut out, event);
            append_str(&mut out, event.message.as_str());
            assert(out@ =~= line_text(pod_name@, workload@, ts, event.message@));
        }
        string_of(&out)
    }
}

/// The template filled in for the event.
fn format_with_template(event: &LogEvent, template: &str) -> (r: String)
    ensures
        template_line(template@, *event, r@),
{
    broadcast use vstd::std_specs::hash::group_hash_axioms;

    let mut data: std::collections::HashMap<u8, String> = std::collections::HashMap::new();
    let pod_name = match &event.pod.name {
        Some(n) => n.clone(),
        None => String::new(),
    };
    data.insert(0, pod_name);
    data.insert(1, event.container.name.clone());
    data.insert(2, event.message.clone());
    if let Some(ts) = &event.timestamp {
        data.insert(3, format_rfc3339(ts));
    }
    let ghost fields = template_fields(*event);
    assert(data@.dom() =~= fields.dom());
    assert(forall|k: u8| #[trigger] fields.contains_key(k) ==> data@[k]@ == fields[k]);
    let mut result = chars_of(template);
    let ghost mut order: Seq<(u8, Seq<char>)> = Seq::empty();
    let ghost all = vstd::std_specs::iter::IteratorSpec::remaining(
        &vstd::std_specs::hash::spec_hash_map_iter(&data),
    );
    for kv in it: data.iter()
        invariant
            it.seq() == all,
            result@ == substitute(template@, order),
            order.len() == it.index(),
            forall|i: int|
                0 <= i < it.index() ==> #[trigger] order[i] == (*it.seq()[i].0, it.seq()[i].1@),
    {
        let (k, v) = kv;
        let ph = placeholder_exec(*k);
        let vc = chars_of(v.as_str());
        result = replace_exec(&result, &ph, &vc);
        proof {
            let o2 = order.push((*k, v@));
            assert(o2.drop_last() =~= order);
            order = o2;
        }
    }
    proof {
        let v = all;
        assert(v.len() == data@.dom().len());
        assert(order.len() == v.len());
        assert forall|i: int|
            0 <= i < order.len() implies fields.contains_key(#[trigger] order[i].0) && fields[order[i].0]
            == order[i].1 by {
            assert(data@.contains_key(*v[i].0) && data@[*v[i].0] == *v[i].1);
        }
        assert forall|k: u8| #[trigger]
            fields.contains_key(k) implies exists|i: int| 0 <= i < order.len() && order[i].0 == k by {
            assert(data@.contains_key(k));
            assert(v.contains((&k, &data@[k])));
            let i = choose|i: int| 0 <= i < v.len() && v[i] == (&k, &data@[k]);
            assert(order[i].0 == k);
        }
        assert(fields.len() == data@.dom().len());
    }
    string_of(&result)
}

// ---------------------------------------------------------------------------
// Notices
// ---------------------------------------------------------------------------
/// `what container <container> in pod <pod>`.
pub open spec fn notice_text(what: Seq<char>, container: Seq<char>, pod: Seq<char>) -> Seq<char> {
    what + " container "@ + container + " in pod "@ + pod
}

/// `<tag> Error tailing <pod>/<container>: <error>`.
pub open spec fn error_text(
    tag: Seq<char>,
    pod: Seq<char>,
    container: Seq<char>,
    error: Seq<char>,
) -> Seq<char> {
    tag + " Error tailing "@ + pod + seq!['/'] + container + ": "@ + error
}

impl OutputFormatter {
    /// The notice that a container was discovered, started or stopped:
    /// `<what> container <container> in pod <pod>`, with `what` yellow, the
    /// container blue and the pod cyan; none when quiet.
    pub fn event_notice(&self, pod_name: &str, container_name: &str, what: &str) -> (r: Option<
        String,
    >)
        ensures
            self.quiet ==> r is None,
            !self.quiet ==> (r matches Some(s) && exists|w: Seq<char>, c: Seq<char>, p: Seq<char>|
                #![trigger notice_text(w, c, p)]
                {
                    &&& painted(w, what@, color_code(Paint::Yellow))
                    &&& painted(c, container_name@, color_code(Paint::Blue))
                    &&& painted(p, pod_name@, color_code(Paint::Cyan))
                    &&& s@ == notice_text(w, c, p)
                }),
    {
        if self.quiet {
            return None;
        }
        let w = paint(what, Paint::Yellow);
        let c = paint(container_name, Paint::Blue);
        let p = paint(pod_name, Paint::Cyan);
        let mut out: Vec<char> = Vec::new();
        append_str(&mut out, w.as_str());
        append_str(&mut out, " container ");
        append_str(&mut out, c.as_str());
        append_str(&mut out, " in pod ");
        append_str(&mut out, p.as_str());
        assert(out@ =~= notice_text(w@, c@, p@));
        Some(string_of(&out))
    }

    /// The report of a tailing error:
    /// `[ERROR] Error tailing <pod>/<container>: <error>`, with the tag and
    /// the error red, the pod cyan and the container blue.
    pub fn error_notice(&self, pod_name: &str, container_name: &str, error: &str) -> (r: String)
        ensures
            exists|t: Seq<char>, p: Seq<char>, c: Seq<char>, e: Seq<char>|
                #![trigger error_text(t, p, c, e)]
                {
                    &&& painted(t, "[ERROR]"@, color_code(Paint::Red))
                    &&& painted(p, pod_name@, color_code(Paint::Cyan))
                    &&& painted(c, container_name@, color_code(Paint::Blue))
                    &&& painted(e, error@, color_code(Paint::Red))
                    &&& r@ == error_text(t, p, c, e)
                },
    {
        let t = paint("[ERROR]", Paint::Red);
        let p = paint(pod_name, Paint::Cyan);
        let c = paint(container_name, Paint::Blue);
        let e = paint(error, Paint::Red);
        let mut out: Vec<char> = Vec::new();
        append_str(&mut out, t.as_str());
        append_str(&mut out, " Error tailing ");
        append_str(&mut out, p.as_str());
        out.push('/');
        append_str(&mut out, c.as_str());
        append_str(&mut out, ": ");
        append_str(&mut out, e.as_str());
        assert(out@ =~= error_text(t@, p@, c@, e@));
        string_of(&out)
    }
}

// ---------------------------------------------------------------------------
// Laws
// ---------------------------------------------------------------------------
/// Replacing a pattern that does not occur changes nothing.
proof fn lemma_replace_absent(s: Seq<char>, pat: Seq<char>, rep: Seq<char>)
    requires
        !contains_text(s, pat),
    ensures
        replace_all(s, pat, rep) == s,
    decreases s.len(),
{
    if pat.len() == 0 || s.len() < pat.len() {
    } else {
        assert(s.take(pat.len() as int) =~= s.subrange(0, pat.len() as int));
        assert(!occurs_at(s, pat, 0));
        let rest = s.drop_first();
        assert(!contains_text(rest, pat)) by {
            if contains_text(rest, pat) {
                let i = choose|i: int| #[trigger] occurs_at(rest, pat, i);
                assert(s.subrange(i + 1, i + 1 + pat.len()) =~= rest.subrange(i, i + pat.len()));
                assert(occurs_at(s, pat, i + 1));
            }
        }
        lemma_replace_absent(rest, pat, rep);
        assert(seq![s[0]] + rest =~= s);
    }
}

/// A text without `{{` holds no placeholder.
proof fn lemma_no_placeholder(t: Seq<char>, k: u8)
    requires
        !contains_text(t, "{{"@),
    ensures
        !contains_text(t, placeholder(k)),
{
    reveal_strlit("{{");
    if contains_text(t, placeholder(k)) {
        let i = choose|i: int| #[trigger] occurs_at(t, placeholder(k), i);
        assert(t.subrange(i, i + 2) =~= t.subrange(i, i + placeholder(k).len()).subrange(0, 2));
        assert(t.subrange(i, i + 2) =~= "{{"@);
        assert(occurs_at(t, "{{"@, i));
    }
}

/// Substituting fields into a text without `{{`, in any order, leaves it as
/// it is.
proof fn lemma_substitute_plain(t: Seq<char>, order: Seq<(u8, Seq<char>)>)
    requires
        !contains_text(t, "{{"@),
    ensures
        substitute(t, order) == t,
    decreases order.len(),
{
    if order.len() > 0 {
        lemma_substitute_plain(t, order.drop_last());
        lemma_no_placeholder(t, order.last().0);
        lemma_replace_absent(t, placeholder(order.last().0), order.last().1);
    }
}

/// A template without `{{` is printed as it stands, whatever the event and
/// whatever order the fields are filled in.
pub proof fn lemma_plain_template_unchanged(t: Seq<char>, e: LogEvent, out: Seq<char>)
    requires
        !contains_text(t, "{{"@),
        template_line(t, e, out),
    ensures
        out == t,
{
    let fields = template_fields(e);
    let order = choose|order: Seq<(u8, Seq<char>)>|
        #![trigger substitute(t, order)]
        {
            &&& order.len() == fields.len()
            &&& forall|i: int|
                0 <= i < order.len() ==> fields.contains_key(#[trigger] order[i].0)
                    && fields[order[i].0] == order[i].1
            &&& forall|k: u8| #[trigger]
                fields.contains_key(k) ==> exists|i: int| 0 <= i < order.len() && order[i].0 == k
            &&& out == substitute(t, order)
        };
    lemma_substitute_plain(t, order);
}

/// Without a template, a raw line is the message itself, after the timestamp
/// when timestamps are shown and the line has one.
pub proof fn lemma_raw_line_is_message(f: OutputFormatter, e: LogEvent, out: Seq<char>, tty: bool)
    requires
        f.template is None,
        f.raw,
        formatted_line(f, e, None, tty, out),
    ensures
        !f.timestamps || e.timestamp is None ==> out == e.message@,
        f.timestamps && e.timestamp is Some ==> out == rfc3339_text(
            e.timestamp->0.secs,
            e.timestamp->0.nanos,
        ) + seq![' '] + e.message@,
{
    assert(Seq::<char>::empty() + e.message@ =~= e.message@);
}

/// Without color (never asked for, or turned off), the default line is the
/// pod's name, its workload, the timestamp if shown, and the message, with
/// nothing added.
pub proof fn lemma_uncolored_line_is_plain(
    f: OutputFormatter,
    e: LogEvent,
    j: Option<JsonValue>,
    tty: bool,
    out: Seq<char>,
)
    requires
        f.template is None,
        !f.raw,
        f.no_color || f.color_mode@ == "never"@,
        formatted_line(f, e, j, tty, out),
    ensures
        out == (if e.pod@.name is Some {
            e.pod@.name->0
        } else {
            "unknown"@
        }) + seq![':'] + workload_name(e.pod@, e.container@) + seq![' '] + ts_prefix(
            f.timestamps,
            e.timestamp,
        ) + e.message@,
{
    reveal_strlit("always");
    reveal_strlit("never");
    assert("never"@.len() != "always"@.len());
    assert(f.color_mode@ == "never"@ ==> !should_colorize(f.color_mode@, tty));
}

/// The compact texts of values, one for each value.
proof fn lemma_compact_items(s: Seq<JsonValue>)
    ensures
        compact_items(s).len() == s.len(),
        forall|i: int| 0 <= i < s.len() ==> #[trigger] compact_items(s)[i] == compact_json(s[i]),
    decreases s.len(),
{
    if s.len() > 0 {
        lemma_compact_items(s.drop_last());
        assert forall|i: int| 0 <= i < s.len() implies #[trigger] compact_items(s)[i]
            == compact_json(s[i]) by {
            if i < s.len() - 1 {
                assert(s.drop_last()[i] == s[i]);
            }
        }
    }
}

/// The compact texts of members, one for each member.
proof fn lemma_compact_members(s: Seq<(String, JsonValue)>)
    ensures
        compact_members(s).len() == s.len(),
        forall|i: int|
            0 <= i < s.len() ==> #[trigger] compact_members(s)[i] == seq!['"'] + json_escape(
                s[i].0@,
            ) + seq!['"', ':'] + compact_json(s[i].1),
    decreases s.len(),
{
    if s.len() > 0 {
        lemma_compact_members(s.drop_last());
        assert forall|i: int| 0 <= i < s.len() implies #[trigger] compact_members(s)[i]
            == seq!['"'] + json_escape(s[i].0@) + seq!['"', ':'] + compact_json(s[i].1) by {
            if i < s.len() - 1 {
                assert(s.drop_last()[i] == s[i]);
            }
        }
    }
}

// ---------------------------------------------------------------------------
// What a terminal shows
// ---------------------------------------------------------------------------
/// The rest of the text after its first `m` (nothing when it has none).
pub open spec fn after_m(s: Seq<char>) -> Seq<char>
    decreases s.len(),
{
    if s.len() == 0 {
        s
    } else if s[0] == 'm' {
        s.drop_first()
    } else {
        after_m(s.drop_first())
    }
}

/// Skipping to after the first `m` never lengthens a text.
pub proof fn lemma_after_m_shorter(s: Seq<char>)
    ensures
        after_m(s).len() <= s.len(),
    decreases s.len(),
{
    if s.len() > 0 && s[0] != 'm' {
        lemma_after_m_shorter(s.drop_first());
    }
}

/// The text a terminal shows: each escape sequence, from the escape
/// character up to and including the next `m`, left out.
pub open spec fn strip_sgr(s: Seq<char>) -> Seq<char>
    decreases s.len(),
{
    if s.len() == 0 {
        s
    } else if s[0] == '\u{1b}' {
        proof {
            lemma_after_m_shorter(s.drop_first());
        }
        strip_sgr(after_m(s.drop_first()))
    } else {
        seq![s[0]] + strip_sgr(s.drop_first())
    }
}

/// Whatever follows it, `out` shows as `plain`.
pub open spec fn strips_to(out: Seq<char>, plain: Seq<char>) -> bool {
    forall|rest: Seq<char>| #[trigger] strip_sgr(out + rest) == plain + strip_sgr(rest)
}

/// Skipping through a text without `m` and then an `m`.
proof fn lemma_after_m_through(t: Seq<char>, rest: Seq<char>)
    requires
        !t.contains('m'),
    ensures
        after_m(t + seq!['m'] + rest) == rest,
    decreases t.len(),
{
    let x = t + seq!['m'] + rest;
    if t.len() == 0 {
        assert(x =~= seq!['m'] + rest);
        assert(x.drop_first() =~= rest);
    } else {
        assert(x[0] == t[0]);
        assert(t.contains(t[0]) ==> t[0] != 'm');
        assert(x.drop_first() =~= t.drop_first() + seq!['m'] + rest);
        assert(!t.drop_first().contains('m')) by {
            if t.drop_first().contains('m') {
                let i = choose|i: int| 0 <= i < t.drop_first().len() && t.drop_first()[i] == 'm';
                assert(t[i + 1] == 'm');
                assert(t.contains(t[i + 1]));
            }
        }
        lemma_after_m_through(t.drop_first(), rest);
    }
}

/// An escape sequence shows as nothing.
proof fn lemma_strips_sgr(params: Seq<char>)
    requires
        !params.contains('m'),
    ensures
        strips_to(sgr(params), Seq::empty()),
{
    reveal_strlit("\u{1b}[");
    reveal_strlit("m");
    assert forall|rest: Seq<char>| #[trigger]
        strip_sgr(sgr(params) + rest) == Seq::<char>::empty() + strip_sgr(rest) by {
        let x = sgr(params) + rest;
        let t = seq!['['] + params;
        assert(x[0] == '\u{1b}');
        assert(x.drop_first() =~= t + seq!['m'] + rest);
        assert(!t.contains('m')) by {
            if t.contains('m') {
                let i = choose|i: int| 0 <= i < t.len() && t[i] == 'm';
                assert(params[i - 1] == 'm');
                assert(params.contains(params[i - 1]));
            }
        }
        lemma_after_m_through(t, rest);
        assert(Seq::<char>::empty() + strip_sgr(rest) =~= strip_sgr(rest));
    }
}

/// Text without an escape character shows as itself.
proof fn lemma_strip_plain(t: Seq<char>, rest: Seq<char>)
    requires
        !t.contains('\u{1b}'),
    ensures
        strip_sgr(t + rest) == t + strip_sgr(rest),
    decreases t.len(),
{
    if t.len() == 0 {
        assert(t + rest =~= rest);
        assert(t + strip_sgr(rest) =~= strip_sgr(rest));
    } else {
        let x = t + rest;
        assert(x[0] == t[0]);
        assert(t.contains(t[0]));
        assert(x.drop_first() =~= t.drop_first() + rest);
        assert(!t.drop_first().contains('\u{1b}')) by {
            if t.drop_first().contains('\u{1b}') {
                let i = choose|i: int|
                    0 <= i < t.drop_first().len() && t.drop_first()[i] == '\u{1b}';
                assert(t[i + 1] == '\u{1b}');
                assert(t.contains(t[i + 1]));
            }
        }
        lemma_strip_plain(t.drop_first(), rest);
        assert(seq![t[0]] + (t.drop_first() + strip_sgr(rest)) =~= t + strip_sgr(rest));
    }
}

/// Text without an escape character shows as itself, whatever follows.
proof fn lemma_strips_plain(t: Seq<char>)
    requires
        !t.contains('\u{1b}'),
    ensures
        strips_to(t, t),
{
    assert forall|rest: Seq<char>| #[trigger] strip_sgr(t + rest) == t + strip_sgr(rest) by {
        lemma_strip_plain(t, rest);
    }
}

/// What two texts show, one after the other.
proof fn lemma_strips_concat(a: Seq<char>, x: Seq<char>, b: Seq<char>, y: Seq<char>)
    requires
        strips_to(a, x),
        strips_to(b, y),
    ensures
        strips_to(a + b, x + y),
{
    assert forall|rest: Seq<char>| #[trigger] strip_sgr((a + b) + rest) == (x + y) + strip_sgr(
        rest,
    ) by {
        assert((a + b) + rest =~= a + (b + rest));
        assert(strip_sgr(a + (b + rest)) == x + strip_sgr(b + rest));
        assert(strip_sgr(b + rest) == y + strip_sgr(rest));
        assert(x + (y + strip_sgr(rest)) =~= (x + y) + strip_sgr(rest));
    }
}

/// A painted text without escape characters shows as itself, colored or not.
proof fn lemma_strips_painted(out: Seq<char>, t: Seq<char>, params: Seq<char>)
    requires
        painted(out, t, params),
        !t.contains('\u{1b}'),
        !params.contains('m'),
    ensures
        strips_to(out, t),
{
    lemma_strips_plain(t);
    if out != t {
        reveal_strlit("\u{1b}[0m");
        reveal_strlit("\u{1b}[");
        reveal_strlit("m");
        reveal_strlit("0");
        assert(!contains_text(t, reset_seq())) by {
            if contains_text(t, reset_seq()) {
                let i = choose|i: int| #[trigger] occurs_at(t, reset_seq(), i);
                assert(t.subrange(i, i + 4)[0] == t[i]);
                assert(t[i] == '\u{1b}');
                assert(t.contains(t[i]));
            }
        }
        lemma_replace_absent(t, reset_seq(), reset_seq() + sgr(params));
        assert(out =~= sgr(params) + t + reset_seq());
        assert(reset_seq() =~= sgr("0"@));
        assert(!"0"@.contains('m')) by {
            assert("0"@ =~= seq!['0']);
        }
        lemma_strips_sgr(params);
        lemma_strips_sgr("0"@);
        lemma_strips_concat(sgr(params), Seq::empty(), t, t);
        lemma_strips_concat(sgr(params) + t, Seq::<char>::empty() + t, reset_seq(), Seq::empty());
        assert(Seq::<char>::empty() + t + Seq::<char>::empty() =~= t);
    }
}

/// Joined parts show as the joined texts they show.
proof fn lemma_strips_join(parts: Seq<Seq<char>>, texts: Seq<Seq<char>>, sep: Seq<char>)
    requires
        parts.len() == texts.len(),
        forall|i: int| 0 <= i < parts.len() ==> #[trigger] strips_to(parts[i], texts[i]),
        !sep.contains('\u{1b}'),
    ensures
        strips_to(join(parts, sep), join(texts, sep)),
    decreases parts.len(),
{
    if parts.len() == 0 {
        lemma_strips_plain(Seq::empty());
    } else if parts.len() == 1 {
        assert(strips_to(parts[0], texts[0]));
    } else {
        lemma_strips_join(parts.drop_last(), texts.drop_last(), sep);
        lemma_strips_plain(sep);
        let n = parts.len() - 1;
        assert(strips_to(parts[n], texts[n]));
        lemma_strips_concat(join(parts.drop_last(), sep), join(texts.drop_last(), sep), sep, sep);
        lemma_strips_concat(
            join(parts.drop_last(), sep) + sep,
            join(texts.drop_last(), sep) + sep,
            parts.last(),
            texts.last(),
        );
    }
}

/// Every number of the value has a text without an escape character, as
/// the text of a JSON number has.
pub open spec fn plain_numbers(v: JsonValue) -> bool
    decreases v,
{
    match v {
        JsonValue::Number(n) => !n.text@.contains('\u{1b}'),
        JsonValue::Array(items) => forall|i: int|
            0 <= i < items@.len() ==> plain_numbers(#[trigger] items@[i]),
        JsonValue::Object(members) => forall|i: int|
            0 <= i < members@.len() ==> plain_numbers(#[trigger] members@[i].1),
        _ => true,
    }
}

/// A character missing from two texts is missing from them joined.
proof fn lemma_absent_concat(a: Seq<char>, b: Seq<char>, c: char)
    requires
        !a.contains(c),
        !b.contains(c),
    ensures
        !(a + b).contains(c),
{
    if (a + b).contains(c) {
        let i = choose|i: int| 0 <= i < (a + b).len() && (a + b)[i] == c;
        if i < a.len() {
            assert(a[i] == c);
            assert(a.contains(a[i]));
        } else {
            assert(b[i - a.len()] == c);
            assert(b.contains(b[i - a.len()]));
        }
    }
}

/// An escaped character holds no escape character.
proof fn lemma_escape_char_plain(c: char)
    ensures
        !json_escape_char(c).contains('\u{1b}'),
{
    let e = json_escape_char(c);
    if e.contains('\u{1b}') {
        let i = choose|i: int| 0 <= i < e.len() && e[i] == '\u{1b}';
        if (c as u32) < 0x20 && c != '"' && c != '\\' && c != '\u{8}' && c != '\t' && c != '\n'
            && c != '\u{c}' && c != '\r' {
            let hi = (c as u32) as nat / 16;
            let lo = (c as u32) as nat % 16;
            assert(hex_digit(hi) != '\u{1b}');
            assert(hex_digit(lo) != '\u{1b}');
        }
    }
}

/// An escaped text holds no escape character.
proof fn lemma_escape_plain(s: Seq<char>)
    ensures
        !json_escape(s).contains('\u{1b}'),
    decreases s.len(),
{
    if s.len() > 0 {
        lemma_escape_plain(s.drop_last());
        lemma_escape_char_plain(s.last());
        lemma_absent_concat(json_escape(s.drop_last()), json_escape_char(s.last()), '\u{1b}');
    }
}

/// The parameters of a color hold no `m`.
proof fn lemma_code_without_m(p: Paint)
    ensures
        !color_code(p).contains('m'),
        !("1;"@ + color_code(p)).contains('m'),
{
    reveal_strlit("36");
    reveal_strlit("33");
    reveal_strlit("32");
    reveal_strlit("34");
    reveal_strlit("35");
    reveal_strlit("90");
    reveal_strlit("91");
    reveal_strlit("31");
    reveal_strlit("1;");
    let c = color_code(p);
    assert(c.len() == 2 && c[0] != 'm' && c[1] != 'm');
    let b = "1;"@ + c;
    assert(b.len() == 4 && b[0] != 'm' && b[1] != 'm' && b[2] == c[0] && b[3] == c[1]);
}

/// The parameters of a status color hold no `m`.
proof fn lemma_status_params_without_m(status: u16)
    ensures
        !status_params(status).contains('m'),
{
    lemma_code_without_m(Paint::Cyan);
    lemma_code_without_m(Paint::Green);
    lemma_code_without_m(Paint::Yellow);
    lemma_code_without_m(Paint::BrightRed);
    lemma_code_without_m(Paint::Red);
    lemma_code_without_m(Paint::Blue);
}

/// A quoted, painted text shows as the text between quotes.
proof fn lemma_strips_quoted(out: Seq<char>, t: Seq<char>, params: Seq<char>)
    requires
        quoted_painted(out, t, params),
        !t.contains('\u{1b}'),
        !params.contains('m'),
    ensures
        strips_to(out, seq!['"'] + t + seq!['"']),
{
    let inner = out.subrange(1, out.len() - 1);
    lemma_strips_painted(inner, t, params);
    assert(!seq!['"'].contains('\u{1b}')) by {
        assert(seq!['"'][0] == '"');
    }
    lemma_strips_plain(seq!['"']);
    lemma_strips_concat(seq!['"'], seq!['"'], inner, t);
    lemma_strips_concat(seq!['"'] + inner, seq!['"'] + t, seq!['"'], seq!['"']);
    assert(out =~= seq!['"'] + inner + seq!['"']);
}

/// A one-character text other than the escape character shows as itself.
proof fn lemma_strips_char(c: char)
    requires
        c != '\u{1b}',
    ensures
        strips_to(seq![c], seq![c]),
{
    assert(!seq![c].contains('\u{1b}')) by {
        assert(seq![c][0] == c);
    }
    lemma_strips_plain(seq![c]);
}

/// A highlighted rendering shows, whatever follows it, as the compact JSON
/// text of the value.
proof fn lemma_rendering_strips(v: JsonValue, key: Option<Seq<char>>, out: Seq<char>)
    requires
        renders(v, key, out),
        plain_numbers(v),
    ensures
        strips_to(out, compact_json(v)),
    decreases v,
{
    reveal_strlit("null");
    reveal_strlit("true");
    reveal_strlit("false");
    match v {
        JsonValue::Null => {
            lemma_code_without_m(Paint::BrightBlack);
            assert(!"null"@.contains('\u{1b}'));
            lemma_strips_painted(out, "null"@, color_code(Paint::BrightBlack));
        },
        JsonValue::Bool(b) => {
            lemma_code_without_m(Paint::Magenta);
            assert(!"true"@.contains('\u{1b}'));
            assert(!"false"@.contains('\u{1b}'));
            if b {
                lemma_strips_painted(out, "true"@, color_code(Paint::Magenta));
            } else {
                lemma_strips_painted(out, "false"@, color_code(Paint::Magenta));
            }
        },
        JsonValue::Number(n) => {
            if is_http_status_key(key) && n.as_u64 is Some && n.as_u64->0 <= u16::MAX {
                lemma_status_params_without_m(n.as_u64->0 as u16);
                lemma_strips_painted(out, n.text@, status_params(n.as_u64->0 as u16));
            } else {
                lemma_code_without_m(Paint::Blue);
                lemma_strips_painted(out, n.text@, color_code(Paint::Blue));
            }
        },
        JsonValue::String(s) => {
            lemma_escape_plain(s@);
            if is_http_status_key(key) && parse_u16(s@) is Some {
                lemma_status_params_without_m(parse_u16(s@)->0);
                lemma_strips_quoted(out, json_escape(s@), status_params(parse_u16(s@)->0));
            } else {
                lemma_code_without_m(Paint::Green);
                lemma_strips_quoted(out, json_escape(s@), color_code(Paint::Green));
            }
        },
        JsonValue::Array(items) => {
            let parts = choose|parts: Seq<Seq<char>>|
                #![trigger join(parts, seq![','])]
                {
                    &&& parts.len() == items@.len()
                    &&& forall|i: int|
                        0 <= i < items@.len() ==> renders(items@[i], key, #[trigger] parts[i])
                    &&& out == seq!['['] + join(parts, seq![',']) + seq![']']
                };
            let texts = compact_items(items@);
            lemma_compact_items(items@);
            assert forall|i: int| 0 <= i < parts.len() implies #[trigger] strips_to(
                parts[i],
                texts[i],
            ) by {
                assert(decreases_to!(v => v->Array_0));
                assert(decreases_to!(items => items[i]));
                assert(plain_numbers(items@[i]));
                lemma_rendering_strips(items@[i], key, parts[i]);
            }
            lemma_strips_char(',');
            assert(!seq![','].contains('\u{1b}')) by {
                assert(seq![','][0] == ',');
            }
            lemma_strips_join(parts, texts, seq![',']);
            lemma_strips_char('[');
            lemma_strips_char(']');
            lemma_strips_concat(seq!['['], seq!['['], join(parts, seq![',']), join(texts, seq![',']));
            lemma_strips_concat(
                seq!['['] + join(parts, seq![',']),
                seq!['['] + join(texts, seq![',']),
                seq![']'],
                seq![']'],
            );
        },
        JsonValue::Object(members) => {
            let (keys, vals) = choose|keys: Seq<Seq<char>>, vals: Seq<Seq<char>>|
                #![trigger member_texts(keys, vals)]
                {
                    &&& keys.len() == members@.len()
                    &&& vals.len() == members@.len()
                    &&& forall|i: int|
                        0 <= i < members@.len() ==> painted(
                            #[trigger] keys[i],
                            json_escape(members@[i].0@),
                            color_code(Paint::Cyan),
                        )
                    &&& forall|i: int|
                        0 <= i < members@.len() ==> renders(
                            members@[i].1,
                            Some(members@[i].0@),
                            #[trigger] vals[i],
                        )
                    &&& out == seq!['{'] + join(member_texts(keys, vals), seq![',']) + seq!['}']
                };
            let parts = member_texts(keys, vals);
            let texts = compact_members(members@);
            lemma_compact_members(members@);
            lemma_code_without_m(Paint::Cyan);
            lemma_strips_char('"');
            lemma_strips_char(':');
            assert(!seq!['"', ':'].contains('\u{1b}')) by {
                assert(seq!['"', ':'][0] == '"' && seq!['"', ':'][1] == ':');
            }
            lemma_strips_plain(seq!['"', ':']);
            assert forall|i: int| 0 <= i < parts.len() implies #[trigger] strips_to(
                parts[i],
                texts[i],
            ) by {
                let k = members@[i].0@;
                lemma_escape_plain(k);
                lemma_strips_painted(keys[i], json_escape(k), color_code(Paint::Cyan));
                assert(decreases_to!(v => v->Object_0));
                assert(decreases_to!(members => members[i]));
                assert(decreases_to!(members[i] => members[i].1));
                assert(plain_numbers(members@[i].1));
                lemma_rendering_strips(members@[i].1, Some(k), vals[i]);
                lemma_strips_concat(seq!['"'], seq!['"'], keys[i], json_escape(k));
                lemma_strips_concat(
                    seq!['"'] + keys[i],
                    seq!['"'] + json_escape(k),
                    seq!['"', ':'],
                    seq!['"', ':'],
                );
                lemma_strips_concat(
                    seq!['"'] + keys[i] + seq!['"', ':'],
                    seq!['"'] + json_escape(k) + seq!['"', ':'],
                    vals[i],
                    compact_json(members@[i].1),
                );
            }
            assert(!seq![','].contains('\u{1b}')) by {
                assert(seq![','][0] == ',');
            }
            lemma_strips_join(parts, texts, seq![',']);
            lemma_strips_char('{');
            lemma_strips_char('}');
            lemma_strips_concat(seq!['{'], seq!['{'], join(parts, seq![',']), join(texts, seq![',']));
            lemma_strips_concat(
                seq!['{'] + join(parts, seq![',']),
                seq!['{'] + join(texts, seq![',']),
                seq!['}'],
                seq!['}'],
            );
        },
    }
}

/// Highlighting only adds color: what a terminal shows of any highlighted
/// rendering of a JSON value (its escape sequences left out) is exactly the
/// compact JSON text of the value, with keys and strings escaped as JSON
/// requires.
pub proof fn lemma_highlighting_only_adds_color(
    v: JsonValue,
    key: Option<Seq<char>>,
    out: Seq<char>,
)
    requires
        renders(v, key, out),
        plain_numbers(v),
    ensures
        strip_sgr(out) == compact_json(v),
{
    lemma_rendering_strips(v, key, out);
    let e = Seq::<char>::empty();
    assert(strip_sgr(out + e) == compact_json(v) + strip_sgr(e));
    assert(out + e =~= out);
    assert(compact_json(v) + e =~= compact_json(v));
}

// ---------------------------------------------------------------------------
// Laws of workloads, colors and statuses
// ---------------------------------------------------------------------------
/// The workload of a pod comes from its first owner that is a workload: a
/// StatefulSet, DaemonSet, Job or CronJob gives its own name, a ReplicaSet
/// its name without the hash suffix (its Deployment's name); an owner of any
/// other kind is passed over.
pub proof fn lemma_workload_of_first_owner(
    pod: PodView,
    owners: Seq<OwnerRefView>,
    container: Seq<char>,
)
    requires
        pod.owner_references == Some(owners),
        owners.len() > 0,
    ensures
        owners[0].kind == "StatefulSet"@ || owners[0].kind == "DaemonSet"@ || owners[0].kind
            == "Job"@ || owners[0].kind == "CronJob"@ ==> workload_name(pod, container)
            == owners[0].name,
        owners[0].kind == "ReplicaSet"@ ==> workload_name(pod, container) == match without_hash_suffix(
            owners[0].name,
        ) {
            Some(d) => d,
            None => owners[0].name,
        },
        owners[0].kind != "ReplicaSet"@ && owners[0].kind != "StatefulSet"@ && owners[0].kind
            != "DaemonSet"@ && owners[0].kind != "Job"@ && owners[0].kind != "CronJob"@
            ==> workload_name(pod, container) == workload_name(
            PodView { owner_references: Some(owners.drop_first()), ..pod },
            container,
        ),
{
    reveal_strlit("ReplicaSet");
    reveal_strlit("StatefulSet");
    reveal_strlit("DaemonSet");
    reveal_strlit("Job");
    reveal_strlit("CronJob");
    assert("DaemonSet"@.len() != "ReplicaSet"@.len());
    assert("StatefulSet"@.len() != "ReplicaSet"@.len());
    assert("Job"@.len() != "ReplicaSet"@.len());
    assert("CronJob"@.len() != "ReplicaSet"@.len());
}

/// A pod without owners (or with an empty list of them) is shown with the
/// container's name.
pub proof fn lemma_workload_without_owners(pod: PodView, container: Seq<char>)
    requires
        pod.owner_references is None || pod.owner_references == Some(Seq::<OwnerRefView>::empty()),
    ensures
        workload_name(pod, container) == container,
{
}

/// The last occurrence of a character is just before a suffix without it.
proof fn lemma_last_index_before(head: Seq<char>, c: char, suffix: Seq<char>)
    requires
        !suffix.contains(c),
    ensures
        last_index_of(head + seq![c] + suffix, c) == Some(head.len() as int),
    decreases suffix.len(),
{
    let x = head + seq![c] + suffix;
    if suffix.len() == 0 {
        assert(x =~= head.push(c));
    } else {
        assert(x.last() == suffix.last());
        assert(suffix.contains(suffix.last()));
        assert(x.drop_last() =~= head + seq![c] + suffix.drop_last());
        assert(!suffix.drop_last().contains(c)) by {
            if suffix.drop_last().contains(c) {
                let i = choose|i: int| 0 <= i < suffix.drop_last().len() && suffix.drop_last()[i] == c;
                assert(suffix[i] == c);
                assert(suffix.contains(suffix[i]));
            }
        }
        lemma_last_index_before(head, c, suffix.drop_last());
    }
}

/// A name `<deployment>-<hash>` whose hash is nine or ten hexadecimal digits
/// gives the Deployment's name; with a last part of another length, or with
/// a character that is not a hexadecimal digit, the name has no hash suffix.
pub proof fn lemma_hash_suffix(prefix: Seq<char>, suffix: Seq<char>)
    requires
        !suffix.contains('-'),
    ensures
        (9 <= suffix.len() <= 10 && forall|j: int|
            0 <= j < suffix.len() ==> #[trigger] is_hex_digit(suffix[j])) ==> without_hash_suffix(
            prefix + seq!['-'] + suffix,
        ) == Some(prefix),
        !(9 <= suffix.len() <= 10) ==> without_hash_suffix(prefix + seq!['-'] + suffix) is None,
        (exists|j: int| 0 <= j < suffix.len() && !#[trigger] is_hex_digit(suffix[j]))
            ==> without_hash_suffix(prefix + seq!['-'] + suffix) is None,
{
    let name = prefix + seq!['-'] + suffix;
    lemma_last_index_before(prefix, '-', suffix);
    assert(name.skip(prefix.len() as int + 1) =~= suffix);
    assert(name.take(prefix.len() as int) =~= prefix);
}

/// `always` colors, `never` does not, `auto` colors when standard output is
/// a terminal, and any other mode colors.
pub proof fn lemma_color_modes(mode: Seq<char>, tty: bool)
    ensures
        mode == "always"@ ==> should_colorize(mode, tty),
        mode == "never"@ ==> !should_colorize(mode, tty),
        mode == "auto"@ ==> should_colorize(mode, tty) == tty,
        mode != "never"@ && mode != "auto"@ ==> should_colorize(mode, tty),
{
    reveal_strlit("always");
    reveal_strlit("never");
    reveal_strlit("auto");
    assert("never"@.len() != "always"@.len());
    assert("auto"@.len() != "always"@.len());
    assert("auto"@.len() != "never"@.len());
}

/// Statuses are colored by class: 1xx cyan, 2xx bold green, 3xx yellow,
/// 4xx bright red, 5xx bold red, anything else blue.
pub proof fn lemma_status_classes(status: u16)
    ensures
        100 <= status < 200 ==> status_params(status) == "36"@,
        200 <= status < 300 ==> status_params(status) == "1;"@ + "32"@,
        300 <= status < 400 ==> status_params(status) == "33"@,
        400 <= status < 500 ==> status_params(status) == "91"@,
        500 <= status < 600 ==> status_params(status) == "1;"@ + "31"@,
        status < 100 || status >= 600 ==> status_params(status) == "34"@,
{
}

/// A key names an HTTP status exactly when, in lower case, it is `status`,
/// `status_code`, `statuscode`, `http_status`, `httpstatus`,
/// `http_status_code` or `response_status`; no value outside an object has
/// one.
pub proof fn lemma_status_keys(k: Seq<char>)
    ensures
        is_http_status_key(Some(k)) <==> {
            let l = ascii_lowercase(k);
            ||| l == "status"@
            ||| l == "status_code"@
            ||| l == "statuscode"@
            ||| l == "http_status"@
            ||| l == "httpstatus"@
            ||| l == "http_status_code"@
            ||| l == "response_status"@
        },
        !is_http_status_key(None),
{
}

/// The timestamp shown before a message is the instant's text and a space,
/// when timestamps are shown and the line has one, and nothing otherwise.
pub proof fn lemma_timestamp_prefix(timestamps: bool, ts: Option<Timestamp>)
    ensures
        timestamps && ts is Some ==> ts_prefix(timestamps, ts) == rfc3339_text(
            ts->0.secs,
            ts->0.nanos,
        ) + seq![' '],
        !timestamps || ts is None ==> ts_prefix(timestamps, ts).len() == 0,
{
}

/// The fields a template can name: `{{Pod}}` (the pod's name, or nothing),
/// `{{Container}}`, `{{Message}}`, and `{{Timestamp}}` only when the line has
/// a timestamp.
pub proof fn lemma_template_fields(e: LogEvent)
    ensures
        placeholder(0) == "{{Pod}}"@,
        placeholder(1) == "{{Container}}"@,
        placeholder(2) == "{{Message}}"@,
        placeholder(3) == "{{Timestamp}}"@,
        template_fields(e).contains_key(0) && template_fields(e)[0] == (if e.pod@.name is Some {
            e.pod@.name->0
        } else {
            Seq::<char>::empty()
        }),
        template_fields(e).contains_key(1) && template_fields(e)[1] == e.container@,
        template_fields(e).contains_key(2) && template_fields(e)[2] == e.message@,
        template_fields(e).contains_key(3) == e.timestamp is Some,
        e.timestamp is Some ==> template_fields(e)[3] == rfc3339_text(
            e.timestamp->0.secs,
            e.timestamp->0.nanos,
        ),
        forall|k: u8| k > 3 ==> !#[trigger] template_fields(e).contains_key(k),
{
    reveal_strlit("{{Pod}}");
    reveal_strlit("{{Container}}");
    reveal_strlit("{{Message}}");
    reveal_strlit("{{Timestamp}}");
    reveal_strlit("Pod");
    reveal_strlit("Container");
    reveal_strlit("Message");
    reveal_strlit("Timestamp");
    assert(placeholder(0) =~= "{{Pod}}"@);
    assert(placeholder(1) =~= "{{Container}}"@);
    assert(placeholder(2) =~= "{{Message}}"@);
    assert(placeholder(3) =~= "{{Timestamp}}"@);
}

/// Notices read `<what> container <container> in pod <pod>` and
/// `<tag> Error tailing <pod>/<container>: <error>`.
pub proof fn lemma_notice_texts(a: Seq<char>, b: Seq<char>, c: Seq<char>, d: Seq<char>)
    ensures
        notice_text(a, b, c) == a + " container "@ + b + " in pod "@ + c,
        error_text(a, b, c, d) == a + " Error tailing "@ + b + "/"@ + c + ": "@ + d,
{
    reveal_strlit("/");
    assert(seq!['/'] =~= "/"@);
}

/// Inside a JSON string, `"` and `\` take a backslash, the five named
/// control characters their short escapes, other characters below U+0020 a
/// `\u00XX` escape, and every other character stands as itself; a text is
/// escaped character by character.
pub proof fn lemma_json_escapes(c: char, a: Seq<char>, b: Seq<char>)
    ensures
        c == '"' ==> json_escape_char(c) == seq!['\\', '"'],
        c == '\\' ==> json_escape_char(c) == seq!['\\', '\\'],
        c == '\n' ==> json_escape_char(c) == seq!['\\', 'n'],
        c == '\t' ==> json_escape_char(c) == seq!['\\', 't'],
        c == '\r' ==> json_escape_char(c) == seq!['\\', 'r'],
        c == '\u{8}' ==> json_escape_char(c) == seq!['\\', 'b'],
        c == '\u{c}' ==> json_escape_char(c) == seq!['\\', 'f'],
        c == '\u{1}' ==> json_escape_char(c) == seq!['\\', 'u', '0', '0', '0', '1'],
        c == '\u{1b}' ==> json_escape_char(c) == seq!['\\', 'u', '0', '0', '1', 'b'],
        (c as u32) >= 0x20 && c != '"' && c != '\\' ==> json_escape_char(c) == seq![c],
        json_escape(a + b) == json_escape(a) + json_escape(b),
    decreases b.len(),
{
    if b.len() > 0 {
        lemma_json_escapes(c, a, b.drop_last());
        assert((a + b).drop_last() =~= a + b.drop_last());
        assert((a + b).last() == b.last());
        assert(json_escape(a) + json_escape(b.drop_last()) + json_escape_char(b.last()) =~= json_escape(
            a,
        ) + (json_escape(b.drop_last()) + json_escape_char(b.last())));
    } else {
        assert(a + b =~= a);
        assert(json_escape(a) + json_escape(b) =~= json_escape(a));
    }
}

/// With a template, the line comes from the template alone: whether lines
/// are raw or colored, and whether standard output is a terminal, change
/// nothing.
pub proof fn lemma_template_takes_precedence(
    f: OutputFormatter,
    e: LogEvent,
    j: Option<JsonValue>,
    tty: bool,
    out: Seq<char>,
)
    requires
        f.template is Some,
    ensures
        formatted_line(f, e, j, tty, out) == template_line(f.template->0@, e, out),
        formatted_line(f, e, j, tty, out) == formatted_line(
            OutputFormatter { raw: !f.raw, ..f },
            e,
            None,
            !tty,
            out,
        ),
{
}

/// The decimal text of a number: one digit below ten, else the text of the
/// number without its last digit followed by that digit.
pub proof fn lemma_decimal_digits(q: nat, r: nat)
    requires
        r < 10,
    ensures
        decimal(r) == seq![digit_char(r)],
        q > 0 ==> decimal(q * 10 + r) == decimal(q) + seq![digit_char(r)],
        digit_char(r) as u32 == '0' as u32 + r,
{
    if q > 0 {
        assert((q * 10 + r) / 10 == q) by (nonlinear_arith)
            requires
                r < 10,
        ;
        assert((q * 10 + r) % 10 == r) by (nonlinear_arith)
            requires
                r < 10,
        ;
        assert(decimal(q).push(digit_char(r)) =~= decimal(q) + seq![digit_char(r)]);
    }
}

} // verus!
