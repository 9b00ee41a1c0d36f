//! Values as Pkl source.
use crate::text;
use vstd::prelude::*;

verus! {

/// A value to be written. The texts of numbers are written as they are.
#[derive(Debug)]
pub enum Value {
    Null,
    Bool(bool),
    Number(String),
    Text(String),
    List(Vec<Value>),
    Object(Vec<(String, Value)>),
}

// ---- Texts ----

/// Whether Unicode counts the character among the control characters.
pub open spec fn is_control(c: char) -> bool {
    c as u32 <= 0x1f || 0x7f <= c as u32 <= 0x9f
}

/// A hexadecimal digit.
pub open spec fn hex_digit(d: int) -> char {
    if d < 10 {
        ('0' as u32 + d) as char
    } else {
        ('a' as u32 + d - 10) as char
    }
}

/// A character inside of a Pkl string literal.
pub open spec fn escaped(c: char) -> Seq<char> {
    if c == '"' {
        seq!['\\', '"']
    } else if c == '\\' {
        seq!['\\', '\\']
    } else if c == '\n' {
        seq!['\\', 'n']
    } else if c == '\r' {
        seq!['\\', 'r']
    } else if c == '\t' {
        seq!['\\', 't']
    } else if is_control(c) {
        seq!['\\', 'u', '0', '0', hex_digit(c as u32 as int / 16), hex_digit(c as u32 as int % 16)]
    } else {
        seq![c]
    }
}

/// The characters of a text inside of a Pkl string literal.
pub open spec fn all_escaped(s: Seq<char>) -> Seq<char>
    decreases s.len(),
{
    if s.len() == 0 {
        s
    } else {
        all_escaped(s.drop_last()) + escaped(s.last())
    }
}

/// A text as a Pkl string literal.
pub open spec fn literal(s: Seq<char>) -> Seq<char> {
    "\""@ + all_escaped(s) + "\""@
}

/// `pkl_string_literal` of pklx: the text in double quotes; quotes and
/// backslashes are escaped with a backslash, line feeds, carriage returns and
/// tabs have their letters, and every other control character is written with
/// its four hexadecimal digits.
pub assume_specification[ pklx::pkl_string_literal ](value: &str) -> (r: String)
    ensures
        r@ == literal(value@),
;

/// Nothing in a literal breaks its line: it holds no control character.
pub proof fn law_literal_has_no_control(s: Seq<char>)
    ensures
        forall|i: int| 0 <= i < all_escaped(s).len() ==> !is_control(#[trigger] all_escaped(s)[i]),
    decreases s.len(),
{
    if s.len() > 0 {
        law_literal_has_no_control(s.drop_last());
        let rest = all_escaped(s.drop_last());
        let c = s.last();
        lemma_escaped_has_no_control(c);
        assert forall|i: int| 0 <= i < all_escaped(s).len() implies !is_control(
            #[trigger] all_escaped(s)[i],
        ) by {
            if i < rest.len() {
                assert(!is_control(rest[i]));
            } else {
                assert(!is_control(escaped(c)[i - rest.len()]));
            }
        }
    }
}

proof fn lemma_escaped_has_no_control(c: char)
    ensures
        forall|i: int| 0 <= i < escaped(c).len() ==> !is_control(#[trigger] escaped(c)[i]),
{
    let n = c as u32 as int;
    if is_control(c) {
        assert(0 <= n / 16 < 16 && 0 <= n % 16 < 16);
    }
}

// ---- Identifiers ----

/// Whether the character may stand in an identifier, at its beginning or behind.
pub open spec fn identifier_char(c: char, first: bool) -> bool {
    c == '_' || text::ascii_letter(c) || (!first && text::ascii_digit(c))
}

/// Whether the text is an identifier: letters, digits and underscores, with no
/// digit at its beginning.
pub open spec fn identifier(s: Seq<char>) -> bool {
    &&& s.len() > 0
    &&& forall|i: int| 0 <= i < s.len() ==> identifier_char(#[trigger] s[i], i == 0)
}

/// Whether the text is an identifier.
pub fn is_pkl_identifier(value: &str) -> (r: bool)
    ensures
        r == identifier(value@),
{
    let v = text::chars_of(value);
    if v.len() == 0 {
        return false;
    }
    for i in 0..v.len()
        invariant
            v@ == value@,
            v@.len() > 0,
            forall|k: int| 0 <= k < i ==> identifier_char(#[trigger] v@[k], k == 0),
    {
        let c = v[i];
        if !(c == '_' || ('a' <= c && c <= 'z') || ('A' <= c && c <= 'Z') || (i > 0 && '0' <= c && c
            <= '9')) {
            assert(!identifier_char(v@[i as int], i == 0));
            return false;
        }
    }
    true
}

// ---- Values ----

/// The first property name in the value that is no identifier.
pub open spec fn first_bad(v: Value) -> Option<Seq<char>>
    decreases v, 0int,
{
    match v {
        Value::List(items) => first_bad_item(items@, 0),
        Value::Object(fields) => first_bad_field(fields@, 0),
        _ => None,
    }
}

pub open spec fn first_bad_item(items: Seq<Value>, i: int) -> Option<Seq<char>>
    decreases items, items.len() - i,
{
    if !(0 <= i < items.len()) {
        None
    } else {
        match first_bad(items[i]) {
            Some(k) => Some(k),
            None => first_bad_item(items, i + 1),
        }
    }
}

pub open spec fn first_bad_field(fields: Seq<(String, Value)>, i: int) -> Option<Seq<char>>
    decreases fields, fields.len() - i,
{
    if !(0 <= i < fields.len()) {
        None
    } else if !identifier(fields[i].0@) {
        Some(fields[i].0@)
    } else {
        match first_bad(fields[i].1) {
            Some(k) => Some(k),
            None => first_bad_field(fields, i + 1),
        }
    }
}

/// The value as Pkl source, where `pad` is the indentation of its line.
pub open spec fn source(v: Value, pad: Seq<char>) -> Seq<char>
    decreases v, 0int,
{
    match v {
        Value::Null => "null"@,
        Value::Bool(b) => if b {
            "true"@
        } else {
            "false"@
        },
        Value::Number(n) => n@,
        Value::Text(s) => literal(s@),
        Value::List(items) => if items@.len() == 0 {
            "new Listing {}"@
        } else {
            "new Listing {\n"@ + item_lines(items@, pad + "  "@, items@.len() as int) + pad + "}"@
        },
        Value::Object(fields) => if fields@.len() == 0 {
            "new {}"@
        } else {
            "new {\n"@ + field_lines(fields@, pad + "  "@, fields@.len() as int) + pad + "}"@
        },
    }
}

/// The first `n` items, each on lines of its own.
pub open spec fn item_lines(items: Seq<Value>, pad: Seq<char>, n: int) -> Seq<char>
    decreases items, n,
{
    if !(0 < n <= items.len()) {
        Seq::empty()
    } else {
        item_lines(items, pad, n - 1) + pad + source(items[n - 1], pad) + "\n"@
    }
}

/// The first `n` properties, each on lines of its own.
pub open spec fn field_lines(fields: Seq<(String, Value)>, pad: Seq<char>, n: int) -> Seq<char>
    decreases fields, n,
{
    if !(0 < n <= fields.len()) {
        Seq::empty()
    } else {
        field_lines(fields, pad, n - 1) + pad + fields[n - 1].0@ + " = "@ + source(
            fields[n - 1].1,
            pad,
        ) + "\n"@
    }
}

/// What to say of a property name that is no identifier.
pub open spec fn unsupported(key: Seq<char>) -> Seq<char> {
    "cannot render unsupported Pkl property name '"@ + key + "'"@
}

/// Whether `r` is the text, or names the property name that stands against it.
pub open spec fn is_rendering(
    r: Result<String, String>,
    bad: Option<Seq<char>>,
    text: Seq<char>,
) -> bool {
    match (r, bad) {
        (Ok(s), None) => s@ == text,
        (Err(m), Some(k)) => m@ == unsupported(k),
        _ => false,
    }
}

fn render(value: &Value, pad: &str) -> (r: Result<String, String>)
    ensures
        is_rendering(r, first_bad(*value), source(*value, pad@)),
    decreases value,
{
    match value {
        Value::Null => Ok("null".to_owned()),
        Value::Bool(b) => Ok(
            if *b {
                "true".to_owned()
            } else {
                "false".to_owned()
            },
        ),
        Value::Number(n) => Ok(n.clone()),
        Value::Text(s) => Ok(pklx::pkl_string_literal(s.as_str())),
        Value::List(items) => {
            let n: usize = items.len();
            if n == 0 {
                return Ok("new Listing {}".to_owned());
            }
            let inner = pad.to_owned().concat("  ");
            let mut out = String::new();
            assert(out@ =~= item_lines(items@, inner@, 0));
            for i in 0..n
                invariant
                    n == items@.len(),
                    n > 0,
                    value == Value::List(*items),
                    inner@ == pad@ + "  "@,
                    first_bad_item(items@, 0) == first_bad_item(items@, i as int),
                    out@ == item_lines(items@, inner@, i as int),
            {
                assert(decreases_to!(*value => items@[i as int]));
                let text = match render(&items[i], inner.as_str()) {
                    Ok(text) => text,
                    Err(m) => {
                        return Err(m);
                    },
                };
                out = out.concat(inner.as_str()).concat(text.as_str()).concat("\n");
            }
            Ok("new Listing {\n".to_owned().concat(out.as_str()).concat(pad).concat("}"))
        },
        Value::Object(fields) => {
            let n: usize = fields.len();
            if n == 0 {
                return Ok("new {}".to_owned());
            }
            let inner = pad.to_owned().concat("  ");
            let mut out = String::new();
            assert(out@ =~= field_lines(fields@, inner@, 0));
            for i in 0..n
                invariant
                    n == fields@.len(),
                    n > 0,
                    value == Value::Object(*fields),
                    inner@ == pad@ + "  "@,
                    first_bad_field(fields@, 0) == first_bad_field(fields@, i as int),
                    out@ == field_lines(fields@, inner@, i as int),
            {
                let key = fields[i].0.as_str();
                if !is_pkl_identifier(key) {
                    return Err(
                        text::around("cannot render unsupported Pkl property name '", key, "'"),
                    );
                }
                assert(decreases_to!(*value => fields@[i as int]));
                let text = match render(&fields[i].1, inner.as_str()) {
                    Ok(text) => text,
                    Err(m) => {
                        return Err(m);
                    },
                };
                out = out.concat(inner.as_str()).concat(key).concat(" = ").concat(
                    text.as_str(),
                ).concat("\n");
            }
            Ok("new {\n".to_owned().concat(out.as_str()).concat(pad).concat("}"))
        },
    }
}

/// The value as a Pkl expression whose line is indented by `indent` blanks.
pub fn json_to_pkl(value: &Value, indent: usize) -> (r: Result<String, String>)
    ensures
        is_rendering(r, first_bad(*value), source(*value, text::blanks(indent as int))),
{
    let pad = text::pad_right("", indent);
    proof {
        reveal_strlit("");
        assert(pad@ =~= text::blanks(indent as int));
    }
    render(value, pad.as_str())
}

/// The value as a Pkl module: the properties of an object stand by themselves,
/// each on lines of its own.
pub open spec fn module_source(v: Value) -> Seq<char> {
    match v {
        Value::Object(fields) => field_lines(fields@, Seq::empty(), fields@.len() as int),
        _ => source(v, Seq::empty()) + "\n"@,
    }
}

/// The value as a Pkl module.
pub fn to_pkl(value: &Value) -> (r: Result<String, String>)
    ensures
        is_rendering(r, first_bad(*value), module_source(*value)),
{
    match value {
        Value::Object(fields) => {
            let mut out = String::new();
            let pad = String::new();
            assert(out@ =~= field_lines(fields@, pad@, 0));
            assert(pad@ =~= Seq::<char>::empty());
            for i in 0..fields.len()
                invariant
                    value == Value::Object(*fields),
                    pad@ == Seq::<char>::empty(),
                    first_bad_field(fields@, 0) == first_bad_field(fields@, i as int),
                    out@ == field_lines(fields@, pad@, i as int),
            {
                let key = fields[i].0.as_str();
                if !is_pkl_identifier(key) {
                    return Err(
                        text::around("cannot render unsupported Pkl property name '", key, "'"),
                    );
                }
                let text = match render(&fields[i].1, pad.as_str()) {
                    Ok(text) => text,
                    Err(m) => {
                        return Err(m);
                    },
                };
                let ghost was = out@;
                out = out.concat(key).concat(" = ").concat(text.as_str()).concat("\n");
                assert(was + pad@ =~= was);
            }
            Ok(out)
        },
        _ => match json_to_pkl(value, 0) {
            Ok(text) => {
                assert(text::blanks(0) =~= Seq::<char>::empty());
                Ok(text.concat("\n"))
            },
            Err(m) => Err(m),
        },
    }
}

// ---- Loading ----

/// What is said where the Pkl file at `path`, which holds a `kind` of value, cannot be
/// evaluated.
pub open spec fn unloaded(kind: Seq<char>, path: Seq<char>, cause: Seq<char>) -> Seq<char> {
    "failed to evaluate "@ + kind + " Pkl "@ + path + ": "@ + cause
}

/// What evaluating the Pkl file at `path` gave, or why it gave nothing.
pub fn load<T>(path: &str, kind: &str, evaluated: Result<T, String>) -> (r: Result<T, String>)
    ensures
        match evaluated {
            Ok(value) => r == Ok::<T, String>(value),
            Err(cause) => r is Err && r->Err_0@ == unloaded(kind@, path@, cause@),
        },
{
    match evaluated {
        Ok(value) => Ok(value),
        Err(cause) => {
            let mut m = text::around("failed to evaluate ", kind, " Pkl ");
            m.append(path);
            m.append(": ");
            m.append(cause.as_str());
            Err(m)
        },
    }
}

/// A value can be rendered exactly where every property name in it, at any depth, is an
/// identifier: of a list each item can, of an object each name is one and each value
/// can, and anything else always can.
pub proof fn law_renderable_iff(v: Value)
    ensures
        match v {
            Value::List(items) => first_bad(v) is None <==> forall|i: int|
                0 <= i < items@.len() ==> first_bad(#[trigger] items@[i]) is None,
            Value::Object(fields) => first_bad(v) is None <==> forall|i: int|
                0 <= i < fields@.len() ==> identifier((#[trigger] fields@[i]).0@) && first_bad(
                    fields@[i].1,
                ) is None,
            _ => first_bad(v) is None,
        },
{
    match v {
        Value::List(items) => lemma_bad_item(items@, 0),
        Value::Object(fields) => lemma_bad_field(fields@, 0),
        _ => {},
    }
}

proof fn lemma_bad_item(items: Seq<Value>, i: int)
    requires
        0 <= i <= items.len(),
    ensures
        first_bad_item(items, i) is None <==> forall|k: int|
            i <= k < items.len() ==> first_bad(#[trigger] items[k]) is None,
    decreases items.len() - i,
{
    if i < items.len() {
        lemma_bad_item(items, i + 1);
        if forall|k: int| i <= k < items.len() ==> first_bad(#[trigger] items[k]) is None {
            assert(first_bad(items[i]) is None);
        }
    }
}

proof fn lemma_bad_field(fields: Seq<(String, Value)>, i: int)
    requires
        0 <= i <= fields.len(),
    ensures
        first_bad_field(fields, i) is None <==> forall|k: int|
            i <= k < fields.len() ==> identifier((#[trigger] fields[k]).0@) && first_bad(
                fields[k].1,
            ) is None,
    decreases fields.len() - i,
{
    if i < fields.len() {
        lemma_bad_field(fields, i + 1);
        if forall|k: int|
            i <= k < fields.len() ==> identifier((#[trigger] fields[k]).0@) && first_bad(
                fields[k].1,
            ) is None {
            assert(identifier(fields[i].0@) && first_bad(fields[i].1) is None);
        }
    }
}

/// Which texts are identifiers: those of letters, digits and underscores that are not
/// empty and do not begin with a digit.
pub proof fn law_identifier(s: Seq<char>)
    ensures
        identifier(s) <==> {
            &&& s.len() > 0
            &&& !('0' <= s[0] && s[0] <= '9')
            &&& forall|i: int|
                0 <= i < s.len() ==> ({
                    let c = #[trigger] s[i];
                    c == '_' || ('a' <= c && c <= 'z') || ('A' <= c && c <= 'Z') || ('0' <= c && c
                        <= '9')
                })
        },
{
    if identifier(s) {
        assert(identifier_char(s[0], true));
        assert forall|i: int| 0 <= i < s.len() implies ({
            let c = #[trigger] s[i];
            c == '_' || ('a' <= c && c <= 'z') || ('A' <= c && c <= 'Z') || ('0' <= c && c <= '9')
        }) by {
            assert(identifier_char(s[i], i == 0));
        }
    }
}

/// A list is rendered item by item and an object property by property, each on lines
/// of its own that are indented by two blanks more, all of them in their order.
pub proof fn law_rendered(v: Value, pad: Seq<char>)
    ensures
        match v {
            Value::List(items) => items@.len() > 0 ==> source(v, pad) == "new Listing {\n"@
                + items@.fold_left(
                Seq::<char>::empty(),
                |t: Seq<char>, x: Value|
                    t + (pad + "  "@) + source(x, pad + "  "@) + "\n"@,
            ) + pad + "}"@,
            Value::Object(fields) => fields@.len() > 0 ==> source(v, pad) == "new {\n"@
                + fields@.fold_left(
                Seq::<char>::empty(),
                |t: Seq<char>, x: (String, Value)|
                    t + (pad + "  "@) + x.0@ + " = "@ + source(x.1, pad + "  "@) + "\n"@,
            ) + pad + "}"@,
            _ => true,
        },
{
    match v {
        Value::List(items) => {
            let n = items@.len() as int;
            assert(items@.take(n) =~= items@);
            lemma_item_lines(
                items@,
                pad + "  "@,
                |t: Seq<char>, x: Value| t + (pad + "  "@) + source(x, pad + "  "@) + "\n"@,
                n,
            );
        },
        Value::Object(fields) => {
            let n = fields@.len() as int;
            assert(fields@.take(n) =~= fields@);
            lemma_field_lines(
                fields@,
                pad + "  "@,
                |t: Seq<char>, x: (String, Value)|
                    t + (pad + "  "@) + x.0@ + " = "@ + source(x.1, pad + "  "@) + "\n"@,
                n,
            );
        },
        _ => {},
    }
}

proof fn lemma_item_lines(
    items: Seq<Value>,
    pad: Seq<char>,
    line: spec_fn(Seq<char>, Value) -> Seq<char>,
    n: int,
)
    requires
        0 <= n <= items.len(),
        forall|t: Seq<char>, x: Value| #[trigger]
            line(t, x) == t + pad + source(x, pad) + "\n"@,
    ensures
        item_lines(items, pad, n) == items.take(n).fold_left(Seq::<char>::empty(), line),
    decreases n,
{
    if n > 0 {
        lemma_item_lines(items, pad, line, n - 1);
        assert(items.take(n).drop_last() =~= items.take(n - 1));
    }
}

proof fn lemma_field_lines(
    fields: Seq<(String, Value)>,
    pad: Seq<char>,
    line: spec_fn(Seq<char>, (String, Value)) -> Seq<char>,
    n: int,
)
    requires
        0 <= n <= fields.len(),
        forall|t: Seq<char>, x: (String, Value)| #[trigger]
            line(t, x) == t + pad + x.0@ + " = "@ + source(x.1, pad) + "\n"@,
    ensures
        field_lines(fields, pad, n) == fields.take(n).fold_left(Seq::<char>::empty(), line),
    decreases n,
{
    if n > 0 {
        lemma_field_lines(fields, pad, line, n - 1);
        assert(fields.take(n).drop_last() =~= fields.take(n - 1));
    }
}

/// The properties of a module are those of its object, each on a line that is not
/// indented, all of them in their order.
pub proof fn law_module(fields: Vec<(String, Value)>)
    ensures
        module_source(Value::Object(fields)) == fields@.fold_left(
            Seq::<char>::empty(),
            |t: Seq<char>, x: (String, Value)|
                t + x.0@ + " = "@ + source(x.1, Seq::empty()) + "\n"@,
        ),
{
    let n = fields@.len() as int;
    assert(fields@.take(n) =~= fields@);
    let line = |t: Seq<char>, x: (String, Value)|
        t + x.0@ + " = "@ + source(x.1, Seq::empty()) + "\n"@;
    assert forall|t: Seq<char>, x: (String, Value)| #[trigger] line(t, x) == t
        + Seq::<char>::empty() + x.0@ + " = "@ + source(x.1, Seq::empty()) + "\n"@ by {
        assert(t + Seq::<char>::empty() =~= t);
    }
    lemma_field_lines(fields@, Seq::empty(), line, n);
}

} // verus!
