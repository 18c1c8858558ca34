use vstd::prelude::*;
use crate::json::{
    doc_of, find_all_paths, find_doc, json_models, json_parse, json_to_string, json_model,
    path_field, ser_doc, strip_path_marker, Json, JsonModel,
};
use crate::resp::{
    bulk_reply, bulk_reply_string, no_such_key_reply, no_such_key_reply_string, ok_reply,
    ok_reply_string, unsupported_path_reply, unsupported_path_reply_string,
};
use crate::store::{str_eq, Record, RecordModel, Store};

verus! {

/// Effect of JSON.SET: on the root path the raw text is stored with no
/// expiry; any other path changes nothing.
pub open spec fn setjson_map(
    m: Map<Seq<char>, RecordModel>,
    k: Seq<char>,
    path: Seq<char>,
    v: Seq<char>,
) -> Map<Seq<char>, RecordModel> {
    if path == "$"@ {
        m.insert(k, RecordModel { value: v, expire_at: None })
    } else {
        m
    }
}

/// Reply of JSON.SET: OK on the root path, the unsupported-path error
/// otherwise.
pub open spec fn setjson_reply(path: Seq<char>) -> Seq<char> {
    if path == "$"@ {
        ok_reply()
    } else {
        unsupported_path_reply()
    }
}

pub struct SetJsonCommand {
    pub key: String,
    pub value: String,
    pub path: String,
}

impl SetJsonCommand {
    pub fn new(key: &str, path: &str, value: &str) -> (c: Self)
        ensures
            c.key@ == key@,
            c.path@ == path@,
            c.value@ == value@,
    {
        SetJsonCommand { key: key.to_owned(), value: value.to_owned(), path: path.to_owned() }
    }

    pub fn execute(&self, store: &mut Store) -> (reply: String)
        requires
            old(store).wf(),
        ensures
            final(store).wf(),
            final(store)@ == setjson_map(old(store)@, self.key@, self.path@, self.value@),
            reply@ == setjson_reply(self.path@),
    {
        if str_eq(self.path.as_str(), "$") {
            store.upsert(
                self.key.as_str(),
                Record { value: self.value.clone(), expire_at: None },
            );
            ok_reply_string()
        } else {
            unsupported_path_reply_string()
        }
    }
}

/// Reply of JSON.GET. An absent key is an error. The stored text is read as
/// a JSON document (text that does not parse stands for the null document).
/// With no paths the whole document is written back. With exactly one path
/// that matches at least once, the reply is the flat array of matches; in
/// every other case it is an object mapping each requested path to its
/// (possibly empty) match array.
pub open spec fn getjson_reply(
    m: Map<Seq<char>, RecordModel>,
    k: Seq<char>,
    paths: Seq<Seq<char>>,
) -> Seq<char> {
    if !m.contains_key(k) {
        no_such_key_reply()
    } else {
        let doc = doc_of(m[k].value);
        if paths.len() == 0 {
            bulk_reply(ser_doc(doc))
        } else {
            let first_matches = find_doc(doc, path_field(paths[0]));
            if paths.len() == 1 && first_matches.len() > 0 {
                bulk_reply(ser_doc(JsonModel::Arr(first_matches)))
            } else {
                bulk_reply(
                    ser_doc(
                        JsonModel::Obj(
                            Seq::new(
                                paths.len(),
                                |i: int| (
                                    paths[i],
                                    JsonModel::Arr(find_doc(doc, path_field(paths[i]))),
                                ),
                            ),
                        ),
                    ),
                )
            }
        }
    }
}

pub struct GetJsonCommand {
    pub key: String,
    pub paths: Vec<String>,
}

impl GetJsonCommand {
    pub fn new(key: &str, paths: &[&str]) -> (c: Self)
        ensures
            c.key@ == key@,
            c.paths.deep_view() == paths.deep_view(),
    {
        let mut ps: Vec<String> = Vec::new();
        let n = paths.len();
        for i in 0..n
            invariant
                n == paths@.len(),
                ps@.len() == i,
                forall|l: int| 0 <= l < i ==> (#[trigger] ps@[l])@ == paths@[l]@,
        {
            ps.push(paths[i].to_owned());
        }
        proof {
            assert(ps.deep_view() =~~= paths.deep_view());
        }
        GetJsonCommand { key: key.to_owned(), paths: ps }
    }

    pub fn execute(&self, store: &Store) -> (reply: String)
        requires
            store.wf(),
        ensures
            reply@ == getjson_reply(store@, self.key@, self.paths.deep_view()),
    {
        let ghost pdv = self.paths.deep_view();
        let stored: Option<String> = match store.get(self.key.as_str()) {
            Some(r) => Some(r.value.clone()),
            None => None,
        };
        match stored {
            None => no_such_key_reply_string(),
            Some(v) => {
                let doc: Json = match json_parse(v.as_str()) {
                    Some(j) => j,
                    None => Json::Null,
                };
                let ghost dm = doc_of(v@);
                proof {
                    assert(json_model(doc) == dm);
                }
                if self.paths.len() == 0 {
                    let s = json_to_string(&doc);
                    bulk_reply_string(s.as_str())
                } else {
                    let mut flat: Option<String> = None;
                    if self.paths.len() == 1 {
                        let field = strip_path_marker(self.paths[0].as_str());
                        proof {
                            assert(pdv[0] == self.paths@[0]@);
                        }
                        let mut results: Vec<Json> = Vec::new();
                        find_all_paths(&doc, field, &mut results);
                        proof {
                            assert(json_models(results@) =~= find_doc(dm, path_field(pdv[0])));
                        }
                        if results.len() > 0 {
                            let arr = Json::Arr(results);
                            proof {
                                assert(json_model(arr)->Arr_0 =~= find_doc(
                                    dm,
                                    path_field(pdv[0]),
                                ));
                                assert(json_model(arr) == JsonModel::Arr(
                                    find_doc(dm, path_field(pdv[0])),
                                ));
                            }
                            let s = json_to_string(&arr);
                            flat = Some(bulk_reply_string(s.as_str()));
                        }
                    }
                    match flat {
                        Some(r) => r,
                        None => {
                            let ghost target = Seq::new(
                                pdv.len(),
                                |i: int| (
                                    pdv[i],
                                    JsonModel::Arr(find_doc(dm, path_field(pdv[i]))),
                                ),
                            );
                            let mut members: Vec<(String, Json)> = Vec::new();
                            let n = self.paths.len();
                            for i in 0..n
                                invariant
                                    n == self.paths@.len(),
                                    pdv == self.paths.deep_view(),
                                    dm == json_model(doc),
                                    target == Seq::new(
                                        pdv.len(),
                                        |l: int| (
                                            pdv[l],
                                            JsonModel::Arr(find_doc(dm, path_field(pdv[l]))),
                                        ),
                                    ),
                                    members@.len() == i,
                                    forall|l: int| 0 <= l < i ==> (#[trigger] members@[l]).0@
                                        == target[l].0 && json_model(members@[l].1)
                                        == target[l].1,
                            {
                                proof {
                                    assert(pdv[i as int] == self.paths@[i as int]@);
                                }
                                let field = strip_path_marker(self.paths[i].as_str());
                                let mut results: Vec<Json> = Vec::new();
                                find_all_paths(&doc, field, &mut results);
                                proof {
                                    assert(json_models(results@) =~= find_doc(
                                        dm,
                                        path_field(pdv[i as int]),
                                    ));
                                }
                                let arr = Json::Arr(results);
                                proof {
                                    assert(json_model(arr)->Arr_0 =~= find_doc(
                                        dm,
                                        path_field(pdv[i as int]),
                                    ));
                                    assert(json_model(arr) == JsonModel::Arr(
                                        find_doc(dm, path_field(pdv[i as int])),
                                    ));
                                }
                                members.push((self.paths[i].clone(), arr));
                            }
                            let obj = Json::Obj(members);
                            proof {
                                assert(json_model(obj)->Obj_0 =~= target);
                                assert(json_model(obj) == JsonModel::Obj(target));
                            }
                            let s = json_to_string(&obj);
                            bulk_reply_string(s.as_str())
                        }
                    }
                }
            }
        }
    }
}

/// Effect of JSON.DEL: the key's record is removed if present.
pub open spec fn deljson_map(m: Map<Seq<char>, RecordModel>, k: Seq<char>) -> Map<
    Seq<char>,
    RecordModel,
> {
    m.remove(k)
}

/// Reply of JSON.DEL: OK when something was removed, the no-such-key error
/// otherwise.
pub open spec fn deljson_reply(m: Map<Seq<char>, RecordModel>, k: Seq<char>) -> Seq<char> {
    if m.contains_key(k) {
        ok_reply()
    } else {
        no_such_key_reply()
    }
}

pub struct DelJsonCommand {
    pub key: String,
}

impl DelJsonCommand {
    pub fn new(key: &str) -> (c: Self)
        ensures
            c.key@ == key@,
    {
        DelJsonCommand { key: key.to_owned() }
    }

    pub fn execute(&self, store: &mut Store) -> (reply: String)
        requires
            old(store).wf(),
        ensures
            final(store).wf(),
            final(store)@ == deljson_map(old(store)@, self.key@),
            reply@ == deljson_reply(old(store)@, self.key@),
    {
        if store.remove(self.key.as_str()) {
            ok_reply_string()
        } else {
            no_such_key_reply_string()
        }
    }
}

} // verus!
