//! The JSON value model: request and response bodies as the gateway rules
//! see them. A number keeps serde_json's three shapes; a floating-point
//! number is held as its decimal text. Object fields are a list whose keys
//! are distinct.
use vstd::prelude::*;

use crate::text::{chars_of, seq_eq};

verus! {

pub enum JsonNumber {
    PosInt(u64),
    NegInt(i64),
    /// A non-integral number, as its decimal text.
    Float(String),
}

pub enum Json {
    Null,
    Bool(bool),
    Number(JsonNumber),
    Str(String),
    Array(Vec<Json>),
    Object(Vec<(String, Json)>),
}

pub enum NumV {
    PosInt(u64),
    NegInt(i64),
    Float(Seq<char>),
}

/// Mathematical view of a JSON value.
pub enum JsonV {
    Null,
    Bool(bool),
    Number(NumV),
    Str(Seq<char>),
    Array(Seq<JsonV>),
    Object(Seq<(Seq<char>, JsonV)>),
}

pub open spec fn num_view(n: JsonNumber) -> NumV {
    match n {
        JsonNumber::PosInt(u) => NumV::PosInt(u),
        JsonNumber::NegInt(i) => NumV::NegInt(i),
        JsonNumber::Float(s) => NumV::Float(s@),
    }
}

pub open spec fn jv(j: Json) -> JsonV
    decreases j,
{
    match j {
        Json::Null => JsonV::Null,
        Json::Bool(b) => JsonV::Bool(b),
        Json::Number(n) => JsonV::Number(num_view(n)),
        Json::Str(s) => JsonV::Str(s@),
        Json::Array(v) => JsonV::Array(
            Seq::new(
                v@.len(),
                |i: int|
                    if 0 <= i < v@.len() {
                        jv(v@[i])
                    } else {
                        JsonV::Null
                    },
            ),
        ),
        Json::Object(f) => JsonV::Object(
            Seq::new(
                f@.len(),
                |i: int|
                    if 0 <= i < f@.len() {
                        (f@[i].0@, jv(f@[i].1))
                    } else {
                        (Seq::empty(), JsonV::Null)
                    },
            ),
        ),
    }
}

impl View for Json {
    type V = JsonV;

    open spec fn view(&self) -> JsonV {
        jv(*self)
    }
}

pub fn clone_string(s: &String) -> (r: String)
    ensures
        r@ == s@,
{
    s.clone()
}

pub fn clone_number(n: &JsonNumber) -> (r: JsonNumber)
    ensures
        num_view(r) == num_view(*n),
{
    match n {
        JsonNumber::PosInt(u) => JsonNumber::PosInt(*u),
        JsonNumber::NegInt(i) => JsonNumber::NegInt(*i),
        JsonNumber::Float(s) => JsonNumber::Float(s.clone()),
    }
}

/// A copy with the same view.
#[verifier::loop_isolation(false)]
pub fn deep_clone(j: &Json) -> (r: Json)
    ensures
        r@ == j@,
    decreases j,
{
    match j {
        Json::Null => Json::Null,
        Json::Bool(b) => Json::Bool(*b),
        Json::Number(n) => Json::Number(clone_number(n)),
        Json::Str(s) => Json::Str(s.clone()),
        Json::Array(v) => {
            let mut out: Vec<Json> = Vec::new();
            let mut i: usize = 0;
            while i < v.len()
                invariant
                    i <= v@.len(),
                    out@.len() == i,
                    forall|k: int| 0 <= k < i ==> (#[trigger] out@[k])@ == v@[k]@,
                decreases v@.len() - i,
            {
                proof {
                    assert(decreases_to!(v@ => v@[i as int]));
                }
                out.push(deep_clone(&v[i]));
                i = i + 1;
            }
            let r = Json::Array(out);
            assert(r@ == j@) by {
                if let JsonV::Array(a) = r@ {
                    if let JsonV::Array(b) = j@ {
                        assert(a =~= b);
                    }
                }
            }
            r
        },
        Json::Object(f) => {
            let mut out: Vec<(String, Json)> = Vec::new();
            let mut i: usize = 0;
            while i < f.len()
                invariant
                    i <= f@.len(),
                    out@.len() == i,
                    forall|k: int|
                        0 <= k < i ==> (#[trigger] out@[k]).0@ == f@[k].0@ && out@[k].1@
                            == f@[k].1@,
                decreases f@.len() - i,
            {
                proof {
                    assert(decreases_to!(f@ => f@[i as int]));
                    assert(decreases_to!(f@[i as int] => f@[i as int].1));
                }
                out.push((f[i].0.clone(), deep_clone(&f[i].1)));
                i = i + 1;
            }
            let r = Json::Object(out);
            assert(r@ == j@) by {
                if let JsonV::Object(a) = r@ {
                    if let JsonV::Object(b) = j@ {
                        assert(a =~= b);
                    }
                }
            }
            r
        },
    }
}

} // verus!

verus! {

// ---------------------------------------------------------------------------
// Views of containers and field lookup
// ---------------------------------------------------------------------------
pub open spec fn elems_view(v: Seq<Json>) -> Seq<JsonV> {
    Seq::new(v.len(), |i: int| v[i]@)
}

pub open spec fn fields_view(f: Seq<(String, Json)>) -> Seq<(Seq<char>, JsonV)> {
    Seq::new(f.len(), |i: int| (f[i].0@, f[i].1@))
}

pub proof fn lemma_array_view(v: Vec<Json>)
    ensures
        Json::Array(v)@ == JsonV::Array(elems_view(v@)),
{
    if let JsonV::Array(a) = Json::Array(v)@ {
        assert(a =~= elems_view(v@));
    }
}

pub proof fn lemma_object_view(f: Vec<(String, Json)>)
    ensures
        Json::Object(f)@ == JsonV::Object(fields_view(f@)),
{
    if let JsonV::Object(a) = Json::Object(f)@ {
        assert(a =~= fields_view(f@));
    }
}

/// Index of the first field named `k` (the length when none).
pub open spec fn key_index(fs: Seq<(Seq<char>, JsonV)>, k: Seq<char>) -> int
    decreases fs.len(),
{
    if fs.len() == 0 {
        0
    } else if fs[0].0 == k {
        0
    } else {
        1 + key_index(fs.drop_first(), k)
    }
}

/// Value of field `k`.
pub open spec fn field(fs: Seq<(Seq<char>, JsonV)>, k: Seq<char>) -> Option<JsonV> {
    let i = key_index(fs, k);
    if i < fs.len() {
        Some(fs[i].1)
    } else {
        None
    }
}

/// `j[k]` for an object `j`.
pub open spec fn vget(j: JsonV, k: Seq<char>) -> Option<JsonV> {
    match j {
        JsonV::Object(fs) => field(fs, k),
        _ => None,
    }
}

/// `j[k]` as a string.
pub open spec fn vget_str(j: JsonV, k: Seq<char>) -> Option<Seq<char>> {
    match vget(j, k) {
        Some(JsonV::Str(s)) => Some(s),
        _ => None,
    }
}

/// `j[k]` as an array.
pub open spec fn vget_arr(j: JsonV, k: Seq<char>) -> Option<Seq<JsonV>> {
    match vget(j, k) {
        Some(JsonV::Array(a)) => Some(a),
        _ => None,
    }
}

/// Fields after setting `k` to `v` (in place when present, else appended).
pub open spec fn set_field(fs: Seq<(Seq<char>, JsonV)>, k: Seq<char>, v: JsonV) -> Seq<
    (Seq<char>, JsonV),
> {
    let i = key_index(fs, k);
    if i < fs.len() {
        fs.update(i, (k, v))
    } else {
        fs.push((k, v))
    }
}

/// Fields without any field named `k`.
pub open spec fn remove_field(fs: Seq<(Seq<char>, JsonV)>, k: Seq<char>) -> Seq<(Seq<char>, JsonV)>
    decreases fs.len(),
{
    if fs.len() == 0 {
        fs
    } else {
        let r = remove_field(fs.drop_last(), k);
        if fs.last().0 == k {
            r
        } else {
            r.push(fs.last())
        }
    }
}

pub proof fn lemma_key_index(fs: Seq<(Seq<char>, JsonV)>, k: Seq<char>, i: int)
    requires
        0 <= i <= fs.len(),
        forall|j: int| 0 <= j < i ==> fs[j].0 != k,
        i < fs.len() ==> fs[i].0 == k,
    ensures
        key_index(fs, k) == i,
    decreases i,
{
    if i > 0 {
        assert forall|j: int| 0 <= j < i - 1 implies fs.drop_first()[j].0 != k by {
            assert(fs.drop_first()[j] == fs[j + 1]);
        }
        lemma_key_index(fs.drop_first(), k, i - 1);
    }
}

pub proof fn lemma_key_index_bound(fs: Seq<(Seq<char>, JsonV)>, k: Seq<char>)
    ensures
        0 <= key_index(fs, k) <= fs.len(),
        key_index(fs, k) < fs.len() ==> fs[key_index(fs, k)].0 == k,
        forall|j: int| 0 <= j < key_index(fs, k) ==> fs[j].0 != k,
    decreases fs.len(),
{
    if fs.len() > 0 && fs[0].0 != k {
        lemma_key_index_bound(fs.drop_first(), k);
        assert forall|j: int| 0 <= j < key_index(fs, k) implies fs[j].0 != k by {
            if j > 0 {
                assert(fs[j] == fs.drop_first()[j - 1]);
            }
        }
    }
}

/// Position of the first field named `key`.
pub fn field_pos(fields: &Vec<(String, Json)>, key: &str) -> (r: Option<usize>)
    ensures
        ({
            let i = key_index(fields_view(fields@), key@);
            match r {
                Some(p) => p == i && i < fields@.len(),
                None => i == fields@.len(),
            }
        }),
{
    let k = chars_of(key);
    let ghost fv = fields_view(fields@);
    let mut i: usize = 0;
    while i < fields.len()
        invariant
            i <= fields@.len(),
            fv == fields_view(fields@),
            k@ == key@,
            forall|j: int| 0 <= j < i ==> fv[j].0 != key@,
        decreases fields@.len() - i,
    {
        if seq_eq(chars_of(fields[i].0.as_str()).as_slice(), k.as_slice()) {
            proof {
                lemma_key_index(fv, key@, i as int);
            }
            return Some(i);
        }
        i = i + 1;
    }
    proof {
        lemma_key_index(fv, key@, i as int);
    }
    None
}

impl Json {
    /// Field `key` of an object.
    pub fn get(&self, key: &str) -> (r: Option<&Json>)
        ensures
            match r {
                Some(v) => vget(self@, key@) == Some(v@),
                None => vget(self@, key@) is None,
            },
    {
        match self {
            Json::Object(f) => {
                proof {
                    lemma_object_view(*f);
                }
                match field_pos(f, key) {
                    Some(i) => Some(&f[i].1),
                    None => None,
                }
            },
            _ => None,
        }
    }

    pub fn as_str(&self) -> (r: Option<&String>)
        ensures
            match r {
                Some(s) => self@ == JsonV::Str(s@),
                None => !(self@ is Str),
            },
    {
        match self {
            Json::Str(s) => Some(s),
            _ => None,
        }
    }

    pub fn as_array(&self) -> (r: Option<&Vec<Json>>)
        ensures
            match r {
                Some(v) => self@ == JsonV::Array(elems_view(v@)),
                None => !(self@ is Array),
            },
    {
        match self {
            Json::Array(v) => {
                proof {
                    lemma_array_view(*v);
                }
                Some(v)
            },
            _ => None,
        }
    }

    pub fn is_object(&self) -> (r: bool)
        ensures
            r == (self@ is Object),
    {
        match self {
            Json::Object(_) => true,
            _ => false,
        }
    }

    /// Field `key` as a string.
    pub fn get_str(&self, key: &str) -> (r: Option<&String>)
        ensures
            match r {
                Some(s) => vget_str(self@, key@) == Some(s@),
                None => vget_str(self@, key@) is None,
            },
    {
        match self.get(key) {
            Some(v) => v.as_str(),
            None => None,
        }
    }
}

/// Sets field `key` (in place when present, else appended).
pub fn fields_set(fields: &mut Vec<(String, Json)>, key: String, val: Json)
    ensures
        fields_view(final(fields)@) == set_field(fields_view(old(fields)@), key@, val@),
{
    let ghost kv = key@;
    let ghost vv = val@;
    match field_pos(fields, key.as_str()) {
        Some(i) => {
            fields.set(i, (key, val));
            assert(fields_view(fields@) =~= set_field(fields_view(old(fields)@), kv, vv));
        },
        None => {
            fields.push((key, val));
            assert(fields_view(fields@) =~= set_field(fields_view(old(fields)@), kv, vv));
        },
    }
}

/// Removes every field named `key`.
pub fn fields_remove(fields: &mut Vec<(String, Json)>, key: &str)
    ensures
        fields_view(final(fields)@) == remove_field(fields_view(old(fields)@), key@),
{
    let k = chars_of(key);
    let ghost fv = fields_view(fields@);
    let mut kept: Vec<(String, Json)> = Vec::new();
    let mut i: usize = 0;
    while i < fields.len()
        invariant
            i <= fields@.len(),
            k@ == key@,
            fv == fields_view(fields@),
            fields@ == old(fields)@,
            fields_view(kept@) == remove_field(fv.take(i as int), key@),
        decreases fields@.len() - i,
    {
        proof {
            assert(fv.take(i + 1).drop_last() =~= fv.take(i as int));
            assert(fv.take(i + 1).last() == fv[i as int]);
        }
        if !seq_eq(chars_of(fields[i].0.as_str()).as_slice(), k.as_slice()) {
            let ghost before = kept@;
            kept.push((fields[i].0.clone(), deep_clone(&fields[i].1)));
            proof {
                assert(fields_view(kept@) =~= fields_view(before).push(fv[i as int]));
            }
        }
        i = i + 1;
    }
    assert(fv.take(fields@.len() as int) =~= fv);
    *fields = kept;
}

} // verus!

verus! {

/// `j` with field `k` set (objects only).
pub open spec fn vset(j: JsonV, k: Seq<char>, v: JsonV) -> JsonV {
    match j {
        JsonV::Object(fs) => JsonV::Object(set_field(fs, k, v)),
        _ => j,
    }
}

pub open spec fn is_obj(j: JsonV) -> bool {
    j is Object
}

impl Json {
    /// Sets field `key` of an object; other values are left alone.
    pub fn set(&mut self, key: &str, val: Json)
        ensures
            final(self)@ == vset(old(self)@, key@, val@),
    {
        match self {
            Json::Object(f) => {
                let ghost f0 = *f;
                proof {
                    lemma_object_view(f0);
                }
                fields_set(f, crate::text::string_from(chars_of(key).as_slice()), val);
                proof {
                    lemma_object_view(*f);
                }
            },
            _ => {},
        }
    }

    /// Removes field `key` of an object; other values are left alone.
    pub fn remove(&mut self, key: &str)
        ensures
            final(self)@ == match old(self)@ {
                JsonV::Object(fs) => JsonV::Object(remove_field(fs, key@)),
                v => v,
            },
    {
        match self {
            Json::Object(f) => {
                let ghost f0 = *f;
                proof {
                    lemma_object_view(f0);
                }
                fields_remove(f, key);
                proof {
                    lemma_object_view(*f);
                }
            },
            _ => {},
        }
    }
}

/// A string value.
pub fn jstr(s: &str) -> (r: Json)
    ensures
        r@ == JsonV::Str(s@),
{
    Json::Str(crate::text::string_from(chars_of(s).as_slice()))
}

} // verus!

verus! {

/// Setting one field leaves the others as they were; the set field reads
/// back the value.
pub proof fn lemma_vget_vset(j: JsonV, k: Seq<char>, v: JsonV, k2: Seq<char>)
    requires
        j is Object,
    ensures
        vget(vset(j, k, v), k) == Some(v),
        k2 != k ==> vget(vset(j, k, v), k2) == vget(j, k2),
{
    let fs = j->Object_0;
    let nf = set_field(fs, k, v);
    lemma_key_index_bound(fs, k);
    lemma_key_index_bound(fs, k2);
    let i = key_index(fs, k);
    if i < fs.len() {
        lemma_key_index(nf, k, i);
    } else {
        assert forall|q: int| 0 <= q < fs.len() implies nf[q].0 != k by {
            assert(nf[q] == fs[q]);
        }
        lemma_key_index(nf, k, fs.len() as int);
    }
    if k2 != k {
        let i2 = key_index(fs, k2);
        assert forall|q: int| 0 <= q < i2 implies nf[q].0 != k2 by {
            if q < fs.len() {
                if q != i {
                    assert(nf[q] == fs[q]);
                }
            }
        }
        if i2 < fs.len() {
            assert(i2 != i);
            assert(nf[i2] == fs[i2]);
            lemma_key_index(nf, k2, i2);
        } else {
            if i < fs.len() {
                lemma_key_index(nf, k2, fs.len() as int);
            } else {
                assert(nf[fs.len() as int].0 == k);
                lemma_key_index(nf, k2, (fs.len() + 1) as int);
            }
        }
    }
}

/// Field `key` of an object, cloned.
pub fn get_cloned(j: &Json, key: &str) -> (r: Option<Json>)
    ensures
        r matches Some(x) ==> vget(j@, key@) == Some(x@),
        r is None ==> vget(j@, key@) is None,
{
    match j.get(key) {
        Some(x) => Some(deep_clone(x)),
        None => None,
    }
}

} // verus!

verus! {

/// The value of the first field named `k`.
pub proof fn lemma_field_at(fs: Seq<(Seq<char>, JsonV)>, k: Seq<char>, i: int)
    requires
        0 <= i < fs.len(),
        fs[i].0 == k,
        forall|j: int| 0 <= j < i ==> fs[j].0 != k,
    ensures
        field(fs, k) == Some(fs[i].1),
{
    lemma_key_index(fs, k, i);
}

/// No field is named `k`.
pub proof fn lemma_field_absent(fs: Seq<(Seq<char>, JsonV)>, k: Seq<char>)
    requires
        forall|j: int| 0 <= j < fs.len() ==> fs[j].0 != k,
    ensures
        field(fs, k) is None,
{
    lemma_key_index(fs, k, fs.len() as int);
}

} // verus!
