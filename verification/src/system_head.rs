//! Gathering the system messages of a Chat request at its head, for
//! upstreams that refuse a system message anywhere else (or more than one).
use vstd::prelude::*;

use crate::json::{deep_clone, elems_view, fields_view, lemma_object_view, vget, vget_str, Json, JsonV};
use crate::text::{chars_of, is, join, join_exec, owned, string_from};

verus! {

pub open spec fn is_system(m: JsonV) -> bool {
    vget_str(m, "role"@) == Some("system"@)
}

/// The system messages, in order.
pub open spec fn systems_of(ms: Seq<JsonV>) -> Seq<JsonV>
    decreases ms.len(),
{
    if ms.len() == 0 {
        ms
    } else if is_system(ms.last()) {
        systems_of(ms.drop_last()).push(ms.last())
    } else {
        systems_of(ms.drop_last())
    }
}

/// The other messages, in order.
pub open spec fn others_of(ms: Seq<JsonV>) -> Seq<JsonV>
    decreases ms.len(),
{
    if ms.len() == 0 {
        ms
    } else if is_system(ms.last()) {
        others_of(ms.drop_last())
    } else {
        others_of(ms.drop_last()).push(ms.last())
    }
}

/// The string `text` fields of content parts, in order.
pub open spec fn part_texts(ps: Seq<JsonV>) -> Seq<Seq<char>>
    decreases ps.len(),
{
    if ps.len() == 0 {
        Seq::empty()
    } else {
        match vget_str(ps.last(), "text"@) {
            Some(t) => part_texts(ps.drop_last()).push(t),
            None => part_texts(ps.drop_last()),
        }
    }
}

/// The text of a system message: a non-empty string content, or the
/// non-empty newline-joined texts of its content parts.
pub open spec fn content_text(m: JsonV) -> Option<Seq<char>> {
    match vget(m, "content"@) {
        Some(JsonV::Str(t)) => if t.len() > 0 {
            Some(t)
        } else {
            None
        },
        Some(JsonV::Array(ps)) => {
            let t = join(part_texts(ps), "\n"@);
            if t.len() > 0 {
                Some(t)
            } else {
                None
            }
        },
        _ => None,
    }
}

/// The texts of the system messages, in order.
pub open spec fn system_texts(ms: Seq<JsonV>) -> Seq<Seq<char>>
    decreases ms.len(),
{
    if ms.len() == 0 {
        Seq::empty()
    } else {
        let r = system_texts(ms.drop_last());
        if is_system(ms.last()) {
            match content_text(ms.last()) {
                Some(t) => r.push(t),
                None => r,
            }
        } else {
            r
        }
    }
}

pub open spec fn system_message(text: Seq<char>) -> JsonV {
    JsonV::Object(seq![("role"@, JsonV::Str("system"@)), ("content"@, JsonV::Str(text))])
}

/// The messages with their system messages at the head, and whether they
/// were rewritten. One system message moves to the front; several move
/// there in their order, or, with `merge`, become one system message whose
/// content is their texts joined by newlines (none when they have no text).
pub open spec fn system_head(ms: Seq<JsonV>, merge: bool) -> (Seq<JsonV>, bool) {
    let n = systems_of(ms).len();
    if n == 0 {
        (ms, false)
    } else if n == 1 {
        (systems_of(ms) + others_of(ms), !is_system(ms[0]))
    } else if !merge {
        (systems_of(ms) + others_of(ms), true)
    } else {
        let ps = system_texts(ms);
        (
            if ps.len() > 0 {
                seq![system_message(join(ps, "\n"@))] + others_of(ms)
            } else {
                others_of(ms)
            },
            true,
        )
    }
}

fn is_system_exec(m: &Json) -> (r: bool)
    ensures
        r == is_system(m@),
{
    match m.get_str("role") {
        Some(r) => is(chars_of(r.as_str()).as_slice(), "system"),
        None => false,
    }
}

fn content_text_exec(m: &Json) -> (r: Option<Vec<char>>)
    ensures
        r matches Some(t) ==> content_text(m@) == Some(t@),
        r is None ==> content_text(m@) is None,
{
    match m.get("content") {
        Some(Json::Str(t)) => {
            let c = chars_of(t.as_str());
            if c.len() > 0 {
                Some(c)
            } else {
                None
            }
        },
        Some(Json::Array(ps)) => {
            proof {
                crate::json::lemma_array_view(*ps);
            }
            let ghost pv = elems_view(ps@);
            let mut texts: Vec<Vec<char>> = Vec::new();
            let mut i: usize = 0;
            while i < ps.len()
                invariant
                    i <= ps@.len(),
                    pv == elems_view(ps@),
                    texts@.map_values(|w: Vec<char>| w@) == part_texts(pv.take(i as int)),
                decreases ps@.len() - i,
            {
                proof {
                    assert(pv.take(i + 1).drop_last() =~= pv.take(i as int));
                    assert(pv.take(i + 1).last() == ps@[i as int]@);
                }
                let ghost before = texts@.map_values(|w: Vec<char>| w@);
                match ps[i].get_str("text") {
                    Some(t) => {
                        texts.push(chars_of(t.as_str()));
                        assert(texts@.map_values(|w: Vec<char>| w@) =~= before.push(t@));
                    },
                    None => {},
                }
                i = i + 1;
            }
            assert(pv.take(ps@.len() as int) =~= pv);
            let nl = chars_of("\n");
            let t = join_exec(&texts, nl.as_slice());
            if t.len() > 0 {
                Some(t)
            } else {
                None
            }
        },
        _ => None,
    }
}

/// Moves the system messages of `messages` to its head (see `system_head`);
/// says whether anything was rewritten.
pub fn collect_system_to_head(messages: &mut Vec<Json>, merge: bool) -> (r: bool)
    ensures
        elems_view(final(messages)@) == system_head(elems_view(old(messages)@), merge).0,
        r == system_head(elems_view(old(messages)@), merge).1,
{
    let ghost mv = elems_view(messages@);
    let mut systems: Vec<Json> = Vec::new();
    let mut others: Vec<Json> = Vec::new();
    let mut texts: Vec<Vec<char>> = Vec::new();
    let mut i: usize = 0;
    while i < messages.len()
        invariant
            i <= messages@.len(),
            mv == elems_view(messages@),
            messages@ == old(messages)@,
            elems_view(systems@) == systems_of(mv.take(i as int)),
            elems_view(others@) == others_of(mv.take(i as int)),
            texts@.map_values(|w: Vec<char>| w@) == system_texts(mv.take(i as int)),
        decreases messages@.len() - i,
    {
        proof {
            assert(mv.take(i + 1).drop_last() =~= mv.take(i as int));
            assert(mv.take(i + 1).last() == messages@[i as int]@);
        }
        let m = deep_clone(&messages[i]);
        if is_system_exec(&m) {
            let ghost before = texts@.map_values(|w: Vec<char>| w@);
            match content_text_exec(&m) {
                Some(t) => {
                    texts.push(t);
                    assert(texts@.map_values(|w: Vec<char>| w@) =~= before.push(t@));
                },
                None => {},
            }
            let ghost sb = elems_view(systems@);
            let ghost mvi = m@;
            systems.push(m);
            assert(elems_view(systems@) =~= sb.push(mvi));
        } else {
            let ghost ob = elems_view(others@);
            let ghost mvi = m@;
            others.push(m);
            assert(elems_view(others@) =~= ob.push(mvi));
        }
        i = i + 1;
    }
    assert(mv.take(messages@.len() as int) =~= mv);
    let n = systems.len();
    if n == 0 {
        return false;
    }
    let changed = if n == 1 {
        !is_system_exec(&messages[0])
    } else {
        true
    };
    if n == 1 || !merge {
        let ghost sv = elems_view(systems@);
        let ghost ov = elems_view(others@);
        let mut all = systems;
        let mut j: usize = 0;
        while j < others.len()
            invariant
                j <= others@.len(),
                ov == elems_view(others@),
                elems_view(all@) == sv + ov.take(j as int),
            decreases others@.len() - j,
        {
            let ghost ab = elems_view(all@);
            let c = deep_clone(&others[j]);
            let ghost cv = c@;
            all.push(c);
            assert(elems_view(all@) =~= ab.push(cv));
            assert(ov.take(j + 1) =~= ov.take(j as int).push(ov[j as int]));
            assert(ov[j as int] == others@[j as int]@);
            assert(sv + ov.take(j + 1) =~= (sv + ov.take(j as int)).push(cv));
            j = j + 1;
        }
        assert(ov.take(others@.len() as int) =~= ov);
        *messages = all;
        return changed;
    }
    let mut out: Vec<Json> = Vec::new();
    if texts.len() > 0 {
        let nl = chars_of("\n");
        let joined = join_exec(&texts, nl.as_slice());
        let mut f: Vec<(String, Json)> = Vec::new();
        f.push((owned("role"), Json::Str(owned("system"))));
        f.push((owned("content"), Json::Str(string_from(joined.as_slice()))));
        proof {
            lemma_object_view(f);
            assert(fields_view(f@) =~= seq![("role"@, JsonV::Str("system"@)), ("content"@, JsonV::Str(joined@))]);
        }
        out.push(Json::Object(f));
    }
    let ghost head = elems_view(out@);
    let ghost ov = elems_view(others@);
    let mut j: usize = 0;
    while j < others.len()
        invariant
            j <= others@.len(),
            ov == elems_view(others@),
            elems_view(out@) == head + ov.take(j as int),
        decreases others@.len() - j,
    {
        let ghost ab = elems_view(out@);
        let c = deep_clone(&others[j]);
        let ghost cv = c@;
        out.push(c);
        assert(elems_view(out@) =~= ab.push(cv));
        assert(ov.take(j + 1) =~= ov.take(j as int).push(ov[j as int]));
        assert(ov[j as int] == others@[j as int]@);
        assert(head + ov.take(j + 1) =~= (head + ov.take(j as int)).push(cv));
        j = j + 1;
    }
    assert(ov.take(others@.len() as int) =~= ov);
    proof {
        if texts@.len() > 0 {
            assert(head =~= seq![system_message(join(system_texts(mv), "\n"@))]);
        } else {
            assert(head =~= Seq::<JsonV>::empty());
            assert(head + ov =~= ov);
        }
    }
    *messages = out;
    true
}

} // verus!
