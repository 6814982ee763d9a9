//! The vendor's model list: the catalog used for strict resolution and the
//! ordered list offered for wakeup configuration.
use vstd::prelude::*;
use vstd::string::*;
use crate::json::{as_array, as_str, get, get_opt, get_in, member, Json};
use crate::model::ModelEntry;
use crate::verification::{dedupe_account_ids, dedupe_spec, strings_view};

verus! {

/// A model offered for wakeup configuration.
#[derive(Clone, Debug)]
pub struct AvailableModel {
    pub id: String,
    pub display_name: String,
    pub model_constant: Option<String>,
    pub recommended: Option<bool>,
}

/// The `models` object of a model-list answer: under `payload` when there,
/// else at the top level.
pub open spec fn models_of(resp: Json) -> Option<Seq<(String, Json)>> {
    match get_opt(get(resp, "payload"@), "models"@) {
        Some(Json::Object(e)) => Some(e@),
        _ => match get(resp, "models"@) {
            Some(Json::Object(e)) => Some(e@),
            _ => None,
        },
    }
}

fn models_exec(resp: &Json) -> (r: Option<&Vec<(String, Json)>>)
    ensures
        match r {
            Some(e) => models_of(*resp) == Some(e@),
            None => models_of(*resp) is None,
        },
{
    if let Some(Json::Object(e)) = get_in(resp.get("payload"), "models") {
        return Some(e);
    }
    match resp.get("models") {
        Some(Json::Object(e)) => Some(e),
        _ => None,
    }
}

/// The catalog entry of one member of the `models` object.
pub open spec fn entry_of(m: (String, Json)) -> (Seq<char>, Option<Seq<char>>) {
    (m.0@, as_str(get(m.1, "model"@)))
}

pub open spec fn entries_view(c: Seq<ModelEntry>) -> Seq<(Seq<char>, Option<Seq<char>>)> {
    c.map_values(|e: ModelEntry| (e.id@, match e.model_constant {
        Some(k) => Some(k@),
        None => None,
    }))
}

/// The catalog of a model-list answer, `None` when it has no models object.
pub fn catalog_from_response(resp: &Json) -> (r: Option<Vec<ModelEntry>>)
    ensures
        match r {
            Some(c) => models_of(*resp) is Some && entries_view(c@) == models_of(*resp).unwrap().map_values(
                |m: (String, Json)| entry_of(m),
            ),
            None => models_of(*resp) is None,
        },
{
    let entries = match models_exec(resp) {
        Some(e) => e,
        None => {
            return None;
        },
    };
    let mut out: Vec<ModelEntry> = Vec::new();
    let mut i: usize = 0;
    while i < entries.len()
        invariant
            i <= entries@.len(),
            entries_view(out@) =~= entries@.subrange(0, i as int).map_values(|m: (String, Json)| entry_of(m)),
        decreases entries@.len() - i,
    {
        let constant = match entries[i].1.get("model") {
            Some(v) => match v.as_str() {
                Some(k) => Some(k.clone()),
                None => None,
            },
            None => None,
        };
        let ghost before = out@;
        let entry = ModelEntry { id: entries[i].0.clone(), model_constant: constant };
        proof {
            assert((entry.id@, match entry.model_constant {
                Some(k) => Some(k@),
                None => None,
            }) == entry_of(entries@[i as int]));
        }
        out.push(entry);
        i += 1;
        proof {
            assert(out@ == before.push(entry));
            assert(entries_view(out@) =~= entries_view(before).push(entry_of(entries@[i - 1])));
            assert(entries_view(out@) =~= entries@.subrange(0, i as int).map_values(
                |m: (String, Json)| entry_of(m),
            ));
        }
    }
    proof {
        assert(entries@.subrange(0, i as int) =~= entries@);
    }
    Some(out)
}

/// The strings of an array, in order, other elements skipped.
pub open spec fn strings_in(a: Seq<Json>) -> Seq<Seq<char>>
    decreases a.len(),
{
    if a.len() == 0 {
        Seq::empty()
    } else {
        let w = strings_in(a.drop_last());
        match a.last() {
            Json::Str(s) => w.push(s@),
            _ => w,
        }
    }
}

/// Model ids of one group.
pub open spec fn group_ids(g: Json) -> Seq<Seq<char>> {
    match as_array(get(g, "modelIds"@)) {
        Some(a) => strings_in(a),
        None => Seq::empty(),
    }
}

/// Model ids of a list of groups, in order.
pub open spec fn groups_ids(gs: Seq<Json>) -> Seq<Seq<char>>
    decreases gs.len(),
{
    if gs.len() == 0 { Seq::empty() } else { groups_ids(gs.drop_last()) + group_ids(gs.last()) }
}

/// Model ids of one sort.
pub open spec fn sort_ids(s: Json) -> Seq<Seq<char>> {
    match as_array(get(s, "groups"@)) {
        Some(gs) => groups_ids(gs),
        None => Seq::empty(),
    }
}

/// Model ids of a list of sorts, in order.
pub open spec fn sorts_ids(ss: Seq<Json>) -> Seq<Seq<char>>
    decreases ss.len(),
{
    if ss.len() == 0 { Seq::empty() } else { sorts_ids(ss.drop_last()) + sort_ids(ss.last()) }
}

/// The `agentModelSorts` of an answer: under `payload` when there, else at the
/// top level.
pub open spec fn sorts_of(resp: Json) -> Seq<Json> {
    match as_array(get_opt(get(resp, "payload"@), "agentModelSorts"@)) {
        Some(a) => a,
        None => match as_array(get(resp, "agentModelSorts"@)) {
            Some(a) => a,
            None => Seq::empty(),
        },
    }
}

/// Model ids in the order the vendor recommends, trimmed, each once.
pub open spec fn ordered_ids_spec(resp: Json) -> Seq<Seq<char>> {
    dedupe_spec(sorts_ids(sorts_of(resp)))
}

fn push_strings(out: &mut Vec<String>, a: &Vec<Json>)
    ensures
        strings_view(final(out)@) == strings_view(old(out)@) + strings_in(a@),
{
    let mut i: usize = 0;
    while i < a.len()
        invariant
            i <= a@.len(),
            strings_view(out@) == strings_view(old(out)@) + strings_in(a@.subrange(0, i as int)),
        decreases a@.len() - i,
    {
        proof {
            assert(a@.subrange(0, i + 1).drop_last() =~= a@.subrange(0, i as int));
        }
        if let Json::Str(s) = &a[i] {
            let ghost before = out@;
            out.push(s.clone());
            proof {
                assert(strings_view(out@) =~= strings_view(before).push(s@));
            }
        }
        i += 1;
    }
    proof {
        assert(a@.subrange(0, i as int) =~= a@);
    }
}

fn push_group_ids(out: &mut Vec<String>, gs: &Vec<Json>)
    ensures
        strings_view(final(out)@) == strings_view(old(out)@) + groups_ids(gs@),
{
    let mut j: usize = 0;
    while j < gs.len()
        invariant
            j <= gs@.len(),
            strings_view(out@) == strings_view(old(out)@) + groups_ids(gs@.subrange(0, j as int)),
        decreases gs@.len() - j,
    {
        proof {
            assert(gs@.subrange(0, j + 1).drop_last() =~= gs@.subrange(0, j as int));
        }
        let ghost before = strings_view(out@);
        match get_in(Some(&gs[j]), "modelIds") {
            Some(v) => match v.as_array() {
                Some(a) => push_strings(out, a),
                None => {},
            },
            None => {},
        }
        proof {
            assert(strings_view(out@) =~= before + group_ids(gs@[j as int]));
        }
        j += 1;
    }
    proof {
        assert(gs@.subrange(0, j as int) =~= gs@);
    }
}

fn sorts_exec(resp: &Json) -> (r: Option<&Vec<Json>>)
    ensures
        match r {
            Some(a) => sorts_of(*resp) == a@,
            None => sorts_of(*resp) == Seq::<Json>::empty(),
        },
{
    if let Some(v) = get_in(resp.get("payload"), "agentModelSorts") {
        if let Some(a) = v.as_array() {
            return Some(a);
        }
    }
    match resp.get("agentModelSorts") {
        Some(v) => v.as_array(),
        None => None,
    }
}

/// Model ids in recommended order.
pub fn extract_ordered_model_ids(resp: &Json) -> (r: Vec<String>)
    ensures
        strings_view(r@) == ordered_ids_spec(*resp),
{
    let mut raw: Vec<String> = Vec::new();
    match sorts_exec(resp) {
        Some(sorts) => {
            let mut i: usize = 0;
            while i < sorts.len()
                invariant
                    i <= sorts@.len(),
                    sorts_of(*resp) == sorts@,
                    strings_view(raw@) == sorts_ids(sorts@.subrange(0, i as int)),
                decreases sorts@.len() - i,
            {
                proof {
                    assert(sorts@.subrange(0, i + 1).drop_last() =~= sorts@.subrange(0, i as int));
                }
                let ghost before = strings_view(raw@);
                match get_in(Some(&sorts[i]), "groups") {
                    Some(v) => match v.as_array() {
                        Some(gs) => push_group_ids(&mut raw, gs),
                        None => {},
                    },
                    None => {},
                }
                proof {
                    assert(strings_view(raw@) =~= before + sort_ids(sorts@[i as int]));
                }
                i += 1;
            }
            proof {
                assert(sorts@.subrange(0, i as int) =~= sorts@);
            }
        },
        None => {
            proof {
                assert(strings_view(raw@) =~= sorts_ids(Seq::<Json>::empty()));
            }
        },
    }
    dedupe_account_ids(&raw)
}

pub open spec fn model_view(m: AvailableModel) -> (Seq<char>, Seq<char>, Option<Seq<char>>, Option<bool>) {
    (m.id@, m.display_name@, match m.model_constant {
        Some(k) => Some(k@),
        None => None,
    }, m.recommended)
}

/// What the model list says of model `id`: display name (the id when it has
/// none), model constant, recommendation.
pub open spec fn offered_model(id: Seq<char>, models: Seq<(String, Json)>) -> Option<
    (Seq<char>, Seq<char>, Option<Seq<char>>, Option<bool>),
> {
    match member(models, id) {
        Some(meta) => Some(
            (
                id,
                match as_str(get(meta, "displayName"@)) {
                    Some(d) => d,
                    None => id,
                },
                as_str(get(meta, "model"@)),
                match get(meta, "recommended"@) {
                    Some(Json::Bool(b)) => Some(b),
                    _ => None,
                },
            ),
        ),
        None => None,
    }
}

/// The offered models, in recommended order, of those the list describes.
pub open spec fn offered_models(ids: Seq<Seq<char>>, models: Seq<(String, Json)>) -> Seq<
    (Seq<char>, Seq<char>, Option<Seq<char>>, Option<bool>),
>
    decreases ids.len(),
{
    if ids.len() == 0 {
        Seq::empty()
    } else {
        let w = offered_models(ids.drop_last(), models);
        match offered_model(ids.last(), models) {
            Some(m) => w.push(m),
            None => w,
        }
    }
}

/// The fixed list offered when the vendor's list yields nothing.
pub open spec fn fallback_models() -> Seq<(Seq<char>, Seq<char>, Option<Seq<char>>, Option<bool>)> {
    seq![
        ("gemini-3.1-pro-high"@, "Gemini 3.1 Pro (High)"@, Some("MODEL_PLACEHOLDER_M37"@), Some(true)),
        ("gemini-3.1-pro-low"@, "Gemini 3.1 Pro (Low)"@, Some("MODEL_PLACEHOLDER_M36"@), Some(true)),
        ("gemini-3-flash"@, "Gemini 3 Flash"@, Some("MODEL_PLACEHOLDER_M18"@), Some(true)),
        ("gpt-oss-120b-medium"@, "GPT-OSS 120B (Medium)"@, Some("MODEL_OPENAI_GPT_OSS_120B_MEDIUM"@), Some(true)),
    ]
}

/// The list offered for wakeup configuration from a model-list answer.
pub open spec fn available_models_spec(resp: Json) -> Seq<(Seq<char>, Seq<char>, Option<Seq<char>>, Option<bool>)> {
    let found = match models_of(resp) {
        Some(m) => offered_models(ordered_ids_spec(resp), m),
        None => Seq::empty(),
    };
    if found.len() == 0 { fallback_models() } else { found }
}

fn fixed(id: &str, name: &str, constant: &str) -> (r: AvailableModel)
    ensures
        model_view(r) == (id@, name@, Some(constant@), Some(true)),
{
    AvailableModel {
        id: id.to_string(),
        display_name: name.to_string(),
        model_constant: Some(constant.to_string()),
        recommended: Some(true),
    }
}

/// The fixed fallback list.
pub fn hardcoded_wakeup_models() -> (r: Vec<AvailableModel>)
    ensures
        r@.map_values(|m: AvailableModel| model_view(m)) == fallback_models(),
{
    let mut v: Vec<AvailableModel> = Vec::new();
    v.push(fixed("gemini-3.1-pro-high", "Gemini 3.1 Pro (High)", "MODEL_PLACEHOLDER_M37"));
    v.push(fixed("gemini-3.1-pro-low", "Gemini 3.1 Pro (Low)", "MODEL_PLACEHOLDER_M36"));
    v.push(fixed("gemini-3-flash", "Gemini 3 Flash", "MODEL_PLACEHOLDER_M18"));
    v.push(fixed("gpt-oss-120b-medium", "GPT-OSS 120B (Medium)", "MODEL_OPENAI_GPT_OSS_120B_MEDIUM"));
    proof {
        assert(v@.map_values(|m: AvailableModel| model_view(m)) =~= fallback_models());
    }
    v
}

fn member_exec<'a>(models: &'a Vec<(String, Json)>, id: &str) -> (r: Option<&'a Json>)
    ensures
        match r {
            Some(v) => member(models@, id@) == Some(*v),
            None => member(models@, id@) is None,
        },
{
    let mut i: usize = 0;
    proof {
        assert(models@.subrange(0, models@.len() as int) =~= models@);
    }
    while i < models.len()
        invariant
            i <= models@.len(),
            member(models@.subrange(i as int, models@.len() as int), id@) == member(models@, id@),
        decreases models@.len() - i,
    {
        proof {
            assert(models@.subrange(i as int, models@.len() as int).drop_first() =~= models@.subrange(
                i + 1,
                models@.len() as int,
            ));
        }
        if crate::text::str_eq(models[i].0.as_str(), id) {
            return Some(&models[i].1);
        }
        i += 1;
    }
    proof {
        assert(models@.subrange(i as int, models@.len() as int) =~= Seq::<(String, Json)>::empty());
    }
    None
}

/// The models offered for wakeup configuration: those of the vendor's list in
/// recommended order, or the fixed list when that yields none.
pub fn available_models_from_response(resp: &Json) -> (r: Vec<AvailableModel>)
    ensures
        r@.map_values(|m: AvailableModel| model_view(m)) == available_models_spec(*resp),
{
    let mut out: Vec<AvailableModel> = Vec::new();
    if let Some(models) = models_exec(resp) {
        let ids = extract_ordered_model_ids(resp);
        let mut i: usize = 0;
        while i < ids.len()
            invariant
                i <= ids@.len(),
                models_of(*resp) == Some(models@),
                strings_view(ids@) == ordered_ids_spec(*resp),
                out@.map_values(|m: AvailableModel| model_view(m)) == offered_models(
                    strings_view(ids@).subrange(0, i as int),
                    models@,
                ),
            decreases ids@.len() - i,
        {
            proof {
                assert(strings_view(ids@).subrange(0, i + 1).drop_last() =~= strings_view(ids@).subrange(
                    0,
                    i as int,
                ));
                assert(strings_view(ids@).subrange(0, i + 1).last() == ids@[i as int]@);
            }
            if let Some(meta) = member_exec(models, ids[i].as_str()) {
                let display = match meta.get("displayName") {
                    Some(d) => match d.as_str() {
                        Some(t) => t.clone(),
                        None => ids[i].clone(),
                    },
                    None => ids[i].clone(),
                };
                let constant = match meta.get("model") {
                    Some(k) => match k.as_str() {
                        Some(t) => Some(t.clone()),
                        None => None,
                    },
                    None => None,
                };
                let recommended = match meta.get("recommended") {
                    Some(Json::Bool(b)) => Some(*b),
                    _ => None,
                };
                let ghost before = out@;
                let m = AvailableModel { id: ids[i].clone(), display_name: display, model_constant: constant, recommended };
                out.push(m);
                proof {
                    assert(out@.map_values(|m: AvailableModel| model_view(m)) =~= before.map_values(
                        |m: AvailableModel| model_view(m),
                    ).push(model_view(m)));
                }
            }
            i += 1;
        }
        proof {
            assert(strings_view(ids@).subrange(0, i as int) =~= strings_view(ids@));
        }
    } else {
        proof {
            assert(out@.map_values(|m: AvailableModel| model_view(m)) =~= Seq::<
                (Seq<char>, Seq<char>, Option<Seq<char>>, Option<bool>),
            >::empty());
        }
    }
    if out.len() == 0 {
        return hardcoded_wakeup_models();
    }
    out
}

} // verus!
