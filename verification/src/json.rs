use vstd::prelude::*;
use vstd::string::StrSliceExecFns;
use vstd::string::StringExecFns;
use crate::num::digit_char;
use crate::store::str_eq;

verus! {

broadcast use {
    vstd::std_specs::vec::axiom_vec_index_decreases,
    vstd::std_specs::vec::axiom_vec_decreases_to_view,
};

/// A JSON document. Numbers keep their literal text, so the engine never
/// rounds or reformats them; strings hold their unescaped contents.
pub enum Json {
    Null,
    Bool(bool),
    Num(String),
    Str(String),
    Arr(Vec<Json>),
    Obj(Vec<(String, Json)>),
}

/// Mathematical image of a document.
pub ghost enum JsonModel {
    Null,
    Bool(bool),
    Num(Seq<char>),
    Str(Seq<char>),
    Arr(Seq<JsonModel>),
    Obj(Seq<(Seq<char>, JsonModel)>),
}

pub open spec fn json_model(j: Json) -> JsonModel
    decreases j,
{
    match j {
        Json::Null => JsonModel::Null,
        Json::Bool(b) => JsonModel::Bool(b),
        Json::Num(t) => JsonModel::Num(t@),
        Json::Str(t) => JsonModel::Str(t@),
        Json::Arr(es) => JsonModel::Arr(
            Seq::new(
                es.len() as nat,
                |i: int| if 0 <= i < es.len() {
                    json_model(es[i])
                } else {
                    JsonModel::Null
                },
            ),
        ),
        Json::Obj(ms) => JsonModel::Obj(
            Seq::new(
                ms.len() as nat,
                |i: int| if 0 <= i < ms.len() {
                    (ms[i].0@, json_model(ms[i].1))
                } else {
                    (Seq::<char>::empty(), JsonModel::Null)
                },
            ),
        ),
    }
}

pub open spec fn json_models(s: Seq<Json>) -> Seq<JsonModel> {
    Seq::new(s.len(), |i: int| json_model(s[i]))
}

// --- Serialization ---

/// Hexadecimal digit character, lower case.
pub open spec fn hex_char(d: nat) -> char {
    if d < 10 {
        digit_char(d)
    } else if d == 10 {
        'a'
    } else if d == 11 {
        'b'
    } else if d == 12 {
        'c'
    } else if d == 13 {
        'd'
    } else if d == 14 {
        'e'
    } else {
        'f'
    }
}

/// How one character of a string is written inside quotes: quote and
/// backslash escaped, the named control characters short, other control
/// characters as a four-digit escape, everything else literally.
pub open spec fn esc_char(c: char) -> Seq<char> {
    if c == '"' {
        seq!['\\', '"']
    } else if c == '\\' {
        seq!['\\', '\\']
    } else if c == '\u{8}' {
        seq!['\\', 'b']
    } else if c == '\t' {
        seq!['\\', 't']
    } else if c == '\n' {
        seq!['\\', 'n']
    } else if c == '\u{c}' {
        seq!['\\', 'f']
    } else if c == '\r' {
        seq!['\\', 'r']
    } else if (c as u32) < 32 {
        seq!['\\', 'u', '0', '0', hex_char((c as u32 / 16) as nat), hex_char((c as u32 % 16) as nat)]
    } else {
        seq![c]
    }
}

pub open spec fn esc_str(t: Seq<char>) -> Seq<char>
    decreases t.len(),
{
    if t.len() == 0 {
        Seq::empty()
    } else {
        esc_str(t.drop_last()) + esc_char(t.last())
    }
}

/// The document written in compact form: no whitespace, object members and
/// array elements in their stored order.
pub open spec fn ser_doc(d: JsonModel) -> Seq<char>
    decreases d,
{
    match d {
        JsonModel::Null => "null"@,
        JsonModel::Bool(b) => if b {
            "true"@
        } else {
            "false"@
        },
        JsonModel::Num(t) => t,
        JsonModel::Str(t) => "\""@ + esc_str(t) + "\""@,
        JsonModel::Arr(es) => "["@ + ser_list(es) + "]"@,
        JsonModel::Obj(ms) => "{"@ + ser_members(ms) + "}"@,
    }
}

pub open spec fn ser_list(es: Seq<JsonModel>) -> Seq<char>
    decreases es,
{
    if es.len() == 0 {
        Seq::empty()
    } else if es.len() == 1 {
        ser_doc(es[0])
    } else {
        ser_list(es.drop_last()) + ","@ + ser_doc(es.last())
    }
}

pub open spec fn ser_member(m: (Seq<char>, JsonModel)) -> Seq<char>
    decreases m,
{
    "\""@ + esc_str(m.0) + "\":"@ + ser_doc(m.1)
}

pub open spec fn ser_members(ms: Seq<(Seq<char>, JsonModel)>) -> Seq<char>
    decreases ms,
{
    if ms.len() == 0 {
        Seq::empty()
    } else if ms.len() == 1 {
        ser_member(ms[0])
    } else {
        ser_members(ms.drop_last()) + ","@ + ser_member(ms.last())
    }
}

// --- Recursive field search ---

/// Every value stored under an object key equal to `key`, anywhere in the
/// document, in document order: object members in stored order, array
/// elements by index, a matching member before the matches inside it.
pub open spec fn find_doc(d: JsonModel, key: Seq<char>) -> Seq<JsonModel>
    decreases d,
{
    match d {
        JsonModel::Arr(es) => find_list(es, key),
        JsonModel::Obj(ms) => find_members(ms, key),
        _ => seq![],
    }
}

pub open spec fn find_list(es: Seq<JsonModel>, key: Seq<char>) -> Seq<JsonModel>
    decreases es,
{
    if es.len() == 0 {
        seq![]
    } else {
        find_doc(es[0], key) + find_list(es.drop_first(), key)
    }
}

pub open spec fn find_members(ms: Seq<(Seq<char>, JsonModel)>, key: Seq<char>) -> Seq<JsonModel>
    decreases ms,
{
    if ms.len() == 0 {
        seq![]
    } else {
        (if ms[0].0 == key {
            seq![ms[0].1]
        } else {
            seq![]
        }) + find_doc(ms[0].1, key) + find_members(ms.drop_first(), key)
    }
}

// --- Executable document operations ---

/// A structural copy with the same model.
pub fn json_clone(j: &Json) -> (r: Json)
    ensures
        json_model(r) == json_model(*j),
    decreases *j,
{
    match j {
        Json::Null => Json::Null,
        Json::Bool(b) => Json::Bool(*b),
        Json::Num(t) => Json::Num(t.clone()),
        Json::Str(t) => Json::Str(t.clone()),
        Json::Arr(es) => {
            let n = es.len();
            let mut out: Vec<Json> = Vec::new();
            for i in 0..n
                invariant
                    n == es@.len(),
                    j is Arr,
                    *es == j->Arr_0,
                    out@.len() == i,
                    forall|l: int| 0 <= l < i ==> json_model(#[trigger] out@[l]) == json_model(
                        es@[l],
                    ),
            {
                proof {
                    assert(decreases_to!(*j => *es));
                    assert(decreases_to!(*es => es[i as int]));
                }
                out.push(json_clone(&es[i]));
            }
            proof {
                assert(json_model(Json::Arr(out))->Arr_0 =~= json_model(*j)->Arr_0);
                assert(json_model(Json::Arr(out)) == json_model(*j));
            }
            Json::Arr(out)
        }
        Json::Obj(ms) => {
            let n = ms.len();
            let mut out: Vec<(String, Json)> = Vec::new();
            for i in 0..n
                invariant
                    n == ms@.len(),
                    j is Obj,
                    *ms == j->Obj_0,
                    out@.len() == i,
                    forall|l: int| 0 <= l < i ==> (#[trigger] out@[l]).0@ == ms@[l].0@
                        && json_model(out@[l].1) == json_model(ms@[l].1),
            {
                proof {
                    assert(decreases_to!(*j => *ms));
                    assert(decreases_to!(*ms => ms[i as int]));
                    assert(decreases_to!(ms[i as int] => ms[i as int].1));
                }
                let k = ms[i].0.clone();
                let v = json_clone(&ms[i].1);
                out.push((k, v));
            }
            proof {
                assert(json_model(Json::Obj(out))->Obj_0 =~= json_model(*j)->Obj_0);
                assert(json_model(Json::Obj(out)) == json_model(*j));
            }
            Json::Obj(out)
        }
    }
}

fn hex_str(d: u64) -> (r: &'static str)
    requires
        d < 16,
    ensures
        r@ == seq![hex_char(d as nat)],
{
    proof {
        reveal_strlit("a");
        reveal_strlit("b");
        reveal_strlit("c");
        reveal_strlit("d");
        reveal_strlit("e");
        reveal_strlit("f");
    }
    let r = if d < 10 {
        crate::num::digit_str(d)
    } else if d == 10 {
        "a"
    } else if d == 11 {
        "b"
    } else if d == 12 {
        "c"
    } else if d == 13 {
        "d"
    } else if d == 14 {
        "e"
    } else {
        "f"
    };
    proof {
        assert(r@ =~= seq![hex_char(d as nat)]);
    }
    r
}

/// Append the quoted-string escaping of `t`.
fn append_escaped(out: &mut String, t: &str)
    ensures
        final(out)@ == old(out)@ + esc_str(t@),
{
    let n = t.unicode_len();
    let mut i: usize = 0;
    proof {
        assert(esc_str(t@.take(0)) =~= Seq::<char>::empty());
        assert(old(out)@ + Seq::<char>::empty() =~= old(out)@);
    }
    while i < n
        invariant
            i <= n,
            n == t@.len(),
            out@ == old(out)@ + esc_str(t@.take(i as int)),
        decreases n - i,
    {
        let c = t.get_char(i);
        proof {
            assert(t@.take(i + 1).drop_last() =~= t@.take(i as int));
            assert(t@.take(i + 1).last() == t@[i as int]);
        }
        if c == '"' {
            out.append("\\\"");
            proof {
                reveal_strlit("\\\"");
                assert("\\\""@ =~= seq!['\\', '"']);
            }
        } else if c == '\\' {
            out.append("\\\\");
            proof {
                reveal_strlit("\\\\");
                assert("\\\\"@ =~= seq!['\\', '\\']);
            }
        } else if c == '\u{8}' {
            out.append("\\b");
            proof {
                reveal_strlit("\\b");
                assert("\\b"@ =~= seq!['\\', 'b']);
            }
        } else if c == '\t' {
            out.append("\\t");
            proof {
                reveal_strlit("\\t");
                assert("\\t"@ =~= seq!['\\', 't']);
            }
        } else if c == '\n' {
            out.append("\\n");
            proof {
                reveal_strlit("\\n");
                assert("\\n"@ =~= seq!['\\', 'n']);
            }
        } else if c == '\u{c}' {
            out.append("\\f");
            proof {
                reveal_strlit("\\f");
                assert("\\f"@ =~= seq!['\\', 'f']);
            }
        } else if c == '\r' {
            out.append("\\r");
            proof {
                reveal_strlit("\\r");
                assert("\\r"@ =~= seq!['\\', 'r']);
            }
        } else if (c as u32) < 32 {
            let v = c as u32;
            out.append("\\u00");
            let hi = hex_str((v / 16) as u64);
            out.append(hi);
            let lo = hex_str((v % 16) as u64);
            out.append(lo);
            proof {
                reveal_strlit("\\u00");
                assert("\\u00"@ =~= seq!['\\', 'u', '0', '0']);
            }
        } else {
            let piece = t.substring_char(i, i + 1);
            out.append(piece);
            proof {
                assert(piece@ =~= seq![t@[i as int]]);
            }
        }
        proof {
            assert(out@ =~= old(out)@ + esc_str(t@.take(i + 1)));
        }
        i += 1;
    }
    proof {
        assert(t@.take(n as int) =~= t@);
    }
}

/// Write the document in compact form.
pub fn json_to_string(j: &Json) -> (r: String)
    ensures
        r@ == ser_doc(json_model(*j)),
    decreases *j,
{
    match j {
        Json::Null => String::from_str("null"),
        Json::Bool(b) => {
            if *b {
                String::from_str("true")
            } else {
                String::from_str("false")
            }
        }
        Json::Num(t) => t.clone(),
        Json::Str(t) => {
            let mut r = String::from_str("\"");
            append_escaped(&mut r, t.as_str());
            r.append("\"");
            proof {
                assert(r@ =~= ser_doc(json_model(*j)));
            }
            r
        }
        Json::Arr(es) => {
            let ghost elems = Seq::new(es@.len(), |i: int| json_model(es@[i]));
            let n = es.len();
            let mut r = String::from_str("[");
            proof {
                assert(ser_list(elems.take(0)) =~= Seq::<char>::empty());
                assert(r@ + Seq::<char>::empty() =~= r@);
            }
            for k in 0..n
                invariant
                    n == es@.len(),
                    j is Arr,
                    *es == j->Arr_0,
                    elems == Seq::new(es@.len(), |i: int| json_model(es@[i])),
                    r@ == "["@ + ser_list(elems.take(k as int)),
            {
                if k > 0 {
                    r.append(",");
                }
                proof {
                    assert(decreases_to!(*j => *es));
                    assert(decreases_to!(*es => es[k as int]));
                }
                let piece = json_to_string(&es[k]);
                r.append(piece.as_str());
                proof {
                    assert(elems.take(k + 1).drop_last() =~= elems.take(k as int));
                    assert(elems.take(k + 1).last() == elems[k as int]);
                    if k == 0 {
                        assert(ser_list(elems.take(1)) == ser_doc(elems[0]));
                    }
                    assert(r@ =~= "["@ + ser_list(elems.take(k + 1)));
                }
            }
            r.append("]");
            proof {
                assert(elems.take(n as int) =~= elems);
                assert(json_model(*j)->Arr_0 =~= elems);
                assert(json_model(*j) == JsonModel::Arr(elems));
                assert(r@ =~= ser_doc(json_model(*j)));
            }
            r
        }
        Json::Obj(ms) => {
            let ghost mems = Seq::new(ms@.len(), |i: int| (ms@[i].0@, json_model(ms@[i].1)));
            let n = ms.len();
            let mut r = String::from_str("{");
            proof {
                assert(ser_members(mems.take(0)) =~= Seq::<char>::empty());
                assert(r@ + Seq::<char>::empty() =~= r@);
            }
            for k in 0..n
                invariant
                    n == ms@.len(),
                    j is Obj,
                    *ms == j->Obj_0,
                    mems == Seq::new(ms@.len(), |i: int| (ms@[i].0@, json_model(ms@[i].1))),
                    r@ == "{"@ + ser_members(mems.take(k as int)),
            {
                if k > 0 {
                    r.append(",");
                }
                r.append("\"");
                append_escaped(&mut r, ms[k].0.as_str());
                r.append("\":");
                proof {
                    assert(decreases_to!(*j => *ms));
                    assert(decreases_to!(*ms => ms[k as int]));
                    assert(decreases_to!(ms[k as int] => ms[k as int].1));
                }
                let piece = json_to_string(&ms[k].1);
                r.append(piece.as_str());
                proof {
                    reveal_strlit("\":");
                    assert("\":"@ =~= seq!['"', ':']);
                    assert(mems.take(k + 1).drop_last() =~= mems.take(k as int));
                    assert(mems.take(k + 1).last() == mems[k as int]);
                    assert(ser_member(mems[k as int]) =~= "\""@ + esc_str(mems[k as int].0)
                        + "\":"@ + ser_doc(mems[k as int].1));
                    if k == 0 {
                        assert(ser_members(mems.take(1)) == ser_member(mems[0]));
                    }
                    assert(r@ =~= "{"@ + ser_members(mems.take(k + 1)));
                }
            }
            r.append("}");
            proof {
                assert(mems.take(n as int) =~= mems);
                assert(json_model(*j)->Obj_0 =~= mems);
                assert(json_model(*j) == JsonModel::Obj(mems));
                assert(r@ =~= ser_doc(json_model(*j)));
            }
            r
        }
    }
}

/// Collect every value stored under an object key equal to `key`, appending
/// to `results` in document order.
pub fn find_all_paths(j: &Json, key: &str, results: &mut Vec<Json>)
    ensures
        json_models(final(results)@) == json_models(old(results)@) + find_doc(
            json_model(*j),
            key@,
        ),
    decreases *j,
{
    match j {
        Json::Arr(es) => {
            let ghost elems = Seq::new(es@.len(), |i: int| json_model(es@[i]));
            let n = es.len();
            proof {
                assert(elems.skip(0) =~= elems);
            }
            for k in 0..n
                invariant
                    n == es@.len(),
                    j is Arr,
                    *es == j->Arr_0,
                    elems == Seq::new(es@.len(), |i: int| json_model(es@[i])),
                    json_models(old(results)@) + find_list(elems, key@) =~= json_models(
                        results@,
                    ) + find_list(elems.skip(k as int), key@),
            {
                proof {
                    assert(decreases_to!(*j => *es));
                    assert(decreases_to!(*es => es[k as int]));
                }
                find_all_paths(&es[k], key, results);
                proof {
                    assert(elems.skip(k as int)[0] == elems[k as int]);
                    assert(elems.skip(k as int).drop_first() =~= elems.skip(k + 1));
                    assert(find_list(elems.skip(k as int), key@) == find_doc(elems[k as int], key@)
                        + find_list(elems.skip(k + 1), key@));
                    assert(json_models(old(results)@) + find_list(elems, key@) =~= json_models(
                        results@,
                    ) + find_list(elems.skip(k + 1), key@));
                }
            }
            proof {
                assert(elems.skip(n as int) =~= Seq::<JsonModel>::empty());
                assert(find_list(elems.skip(n as int), key@) =~= Seq::<JsonModel>::empty());
                assert(json_models(results@) + Seq::<JsonModel>::empty() =~= json_models(
                    results@,
                ));
                assert(json_model(*j)->Arr_0 =~= elems);
                assert(json_model(*j) == JsonModel::Arr(elems));
                assert(json_models(results@) =~= json_models(old(results)@) + find_doc(
                    json_model(*j),
                    key@,
                ));
            }
        }
        Json::Obj(ms) => {
            let ghost mems = Seq::new(ms@.len(), |i: int| (ms@[i].0@, json_model(ms@[i].1)));
            let n = ms.len();
            proof {
                assert(mems.skip(0) =~= mems);
            }
            for k in 0..n
                invariant
                    n == ms@.len(),
                    j is Obj,
                    *ms == j->Obj_0,
                    mems == Seq::new(ms@.len(), |i: int| (ms@[i].0@, json_model(ms@[i].1))),
                    json_models(old(results)@) + find_members(mems, key@) =~= json_models(
                        results@,
                    ) + find_members(mems.skip(k as int), key@),
            {
                proof {
                    assert(decreases_to!(*j => *ms));
                    assert(decreases_to!(*ms => ms[k as int]));
                    assert(decreases_to!(ms[k as int] => ms[k as int].1));
                }
                let ghost before = json_models(results@);
                if str_eq(ms[k].0.as_str(), key) {
                    let copy = json_clone(&ms[k].1);
                    results.push(copy);
                    proof {
                        assert(json_models(results@) =~= before.push(json_model(ms@[k as int].1)));
                    }
                }
                let ghost mid = json_models(results@);
                find_all_paths(&ms[k].1, key, results);
                proof {
                    assert(mems.skip(k as int)[0] == mems[k as int]);
                    assert(mems.skip(k as int).drop_first() =~= mems.skip(k + 1));
                    assert(find_members(mems.skip(k as int), key@) == (if mems[k as int].0 == key@ {
                        seq![mems[k as int].1]
                    } else {
                        seq![]
                    }) + find_doc(mems[k as int].1, key@) + find_members(mems.skip(k + 1), key@));
                    assert(json_models(old(results)@) + find_members(mems, key@) =~= json_models(
                        results@,
                    ) + find_members(mems.skip(k + 1), key@));
                }
            }
            proof {
                assert(mems.skip(n as int) =~= Seq::<(Seq<char>, JsonModel)>::empty());
                assert(find_members(mems.skip(n as int), key@) =~= Seq::<JsonModel>::empty());
                assert(json_models(results@) + Seq::<JsonModel>::empty() =~= json_models(
                    results@,
                ));
                assert(json_model(*j)->Obj_0 =~= mems);
                assert(json_model(*j) == JsonModel::Obj(mems));
                assert(json_models(results@) =~= json_models(old(results)@) + find_doc(
                    json_model(*j),
                    key@,
                ));
            }
        }
        _ => {
            proof {
                assert(find_doc(json_model(*j), key@) =~= Seq::<JsonModel>::empty());
                assert(json_models(results@) =~= json_models(old(results)@) + find_doc(
                    json_model(*j),
                    key@,
                ));
            }
        }
    }
}

// --- Parsing, through serde_json ---

#[verifier::external_type_specification]
#[verifier::external_body]
pub struct ExValue(serde_json::Value);

/// The document that serde_json's parser yields for a chunk of text, or
/// `None` when the text is not valid JSON. The result depends on the text
/// alone.
pub uninterp spec fn json_of(s: Seq<char>) -> Option<JsonModel>;

/// Converts serde_json's tree into the engine's document type, for
/// `json_parse` below: object members keep their stored order, numbers
/// keep their literal text. Relies on serde_json::Value and on
/// serde_json::Number::to_string.
#[verifier::external_body]
fn value_to_json(v: &serde_json::Value) -> Json {
    match v {
        serde_json::Value::Null => Json::Null,
        serde_json::Value::Bool(b) => Json::Bool(*b),
        serde_json::Value::Number(n) => Json::Num(n.to_string()),
        serde_json::Value::String(s) => Json::Str(s.clone()),
        serde_json::Value::Array(a) => Json::Arr(a.iter().map(value_to_json).collect()),
        serde_json::Value::Object(o) => Json::Obj(
            o.iter().map(|(k, val)| (k.clone(), value_to_json(val))).collect(),
        ),
    }
}

/// Parse text as a JSON document. Relies on serde_json::from_str: whether
/// the text parses, and to what, is a function of the text alone; `None`
/// comes exactly when serde_json rejects the text.
#[verifier::external_body]
pub(crate) fn json_parse(s: &str) -> (r: Option<Json>)
    ensures
        match r {
            Some(j) => json_of(s@) == Some(json_model(j)),
            None => json_of(s@) is None,
        },
{
    match serde_json::from_str::<serde_json::Value>(s) {
        Ok(v) => Some(value_to_json(&v)),
        Err(_) => None,
    }
}

/// The document a stored text denotes: its parse, or the null document for
/// text that is not valid JSON.
pub open spec fn doc_of(v: Seq<char>) -> JsonModel {
    match json_of(v) {
        Some(d) => d,
        None => JsonModel::Null,
    }
}

/// The field name a query path denotes: a leading recursive-descent marker,
/// with or without the root symbol, is stripped.
pub open spec fn path_field(p: Seq<char>) -> Seq<char> {
    if p.len() >= 3 && p[0] == '$' && p[1] == '.' && p[2] == '.' {
        p.skip(3)
    } else if p.len() >= 2 && p[0] == '.' && p[1] == '.' {
        p.skip(2)
    } else {
        p
    }
}

/// Strip the recursive-descent marker off a query path.
pub fn strip_path_marker(p: &str) -> (r: &str)
    ensures
        r@ == path_field(p@),
{
    let n = p.unicode_len();
    if n >= 3 && p.get_char(0) == '$' && p.get_char(1) == '.' && p.get_char(2) == '.' {
        let r = p.substring_char(3, n);
        proof {
            assert(r@ =~= p@.skip(3));
        }
        r
    } else if n >= 2 && p.get_char(0) == '.' && p.get_char(1) == '.' {
        let r = p.substring_char(2, n);
        proof {
            assert(r@ =~= p@.skip(2));
        }
        r
    } else {
        p
    }
}

} // verus!
