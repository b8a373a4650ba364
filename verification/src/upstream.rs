//! What the configuration of a provider does to the requests that go to it.
use crate::config::{
    forbidden, forbidden_name, is_managed, provider_at, provider_fault, provider_prefix,
    providers_fault, routes_result, validated, ConfigV, ProviderConfig, ProviderV,
};
use crate::json::{entries_view, lists, Json, JsonV};
use crate::text::{opt_text, to_chars, trim_slice, trimmed};
use crate::wire::chat::opt_str;
use vstd::prelude::*;

verus! {

/// The parameters that a provider adds.
pub open spec fn added_params(p: ProviderV) -> Map<Seq<char>, JsonV> {
    match p.extra_params {
        Some(JsonV::Obj(m)) => m,
        _ => Map::empty(),
    }
}

/// The names of the parameters that a provider does not take.
pub open spec fn dropped_params(p: ProviderV) -> Set<Seq<char>> {
    match p.drop_params {
        Some(names) => names.to_set(),
        None => Set::empty(),
    }
}

/// A request body as the provider gets it: with the parameters that it adds,
/// which win over those of the body, and without those that it does not take.
pub open spec fn sent_body(p: ProviderV, body: JsonV) -> JsonV {
    match body {
        JsonV::Obj(m) => JsonV::Obj(
            m.union_prefer_right(added_params(p)).remove_keys(dropped_params(p)),
        ),
        _ => body,
    }
}

fn add_params(body: Json, extra: &Json) -> (r: Json)
    requires
        body@ is Obj,
    ensures
        r@ == JsonV::Obj(
            body@->Obj_0.union_prefer_right(
                match extra@ {
                    JsonV::Obj(m) => m,
                    _ => Map::empty(),
                },
            ),
        ),
{
    let ghost m = body@->Obj_0;
    let ghost e: Map<Seq<char>, JsonV> = match extra@ {
        JsonV::Obj(m) => m,
        _ => Map::empty(),
    };
    let entries = extra.entries();
    let ghost l = entries_view(entries@);
    let mut out = body;
    let mut i: usize = 0;
    while i < entries.len()
        invariant
            i <= entries@.len(),
            l == entries_view(entries@),
            lists(l, e),
            out@ is Obj,
            forall|k: Seq<char>| #[trigger]
                out@->Obj_0.dom().contains(k) <==> m.dom().contains(k) || exists|j: int|
                    0 <= j < i && (#[trigger] l[j]).0 == k,
            forall|j: int| 0 <= j < i ==> out@->Obj_0[(#[trigger] l[j]).0] == l[j].1,
            forall|k: Seq<char>|
                (forall|j: int| 0 <= j < i ==> (#[trigger] l[j]).0 != k) ==> #[trigger]
                out@->Obj_0[k] == m[k],
        decreases entries@.len() - i,
    {
        let ghost before = out@->Obj_0;
        assert(l[i as int] == (entries@[i as int].0@, entries@[i as int].1@));
        out = out.set(entries[i].0.as_str(), entries[i].1.dup());
        proof {
            let after = out@->Obj_0;
            assert(after == before.insert(l[i as int].0, l[i as int].1));
            assert forall|k: Seq<char>| #[trigger] after.dom().contains(k) <==> m.dom().contains(k)
                || exists|j: int| 0 <= j < i + 1 && (#[trigger] l[j]).0 == k by {
                if k == l[i as int].0 {
                    assert(after.dom().contains(k));
                } else if before.dom().contains(k) && !m.dom().contains(k) {
                    let j = choose|j: int| 0 <= j < i && (#[trigger] l[j]).0 == k;
                    assert(l[j].0 == k);
                }
            }
        }
        i = i + 1;
    }
    proof {
        let got = out@->Obj_0;
        let want = m.union_prefer_right(e);
        assert forall|k: Seq<char>| got.dom().contains(k) == want.dom().contains(k) && (
        got.dom().contains(k) ==> got[k] == want[k]) by {
            if e.dom().contains(k) {
                let j = choose|j: int| 0 <= j < l.len() && (#[trigger] l[j]).0 == k;
                assert(got[l[j].0] == l[j].1);
            } else {
                assert forall|j: int| 0 <= j < l.len() implies (#[trigger] l[j]).0 != k by {}
            }
        }
        assert(got =~= want);
    }
    out
}

impl ProviderConfig {
    /// A request body as this provider gets it.
    pub fn apply_params(&self, body: Json) -> (r: Json)
        ensures
            r@ == sent_body(self@, body@),
    {
        match &body {
            Json::Obj(_) => {},
            _ => {
                return body;
            },
        }
        let ghost m = body@->Obj_0;
        let with = match &self.extra_params {
            Some(extra) => add_params(body, extra),
            None => body,
        };
        assert(self.extra_params is None ==> m.union_prefer_right(Map::empty()) =~= m);
        match &self.drop_params {
            Some(names) => with.without(names),
            None => {
                assert(with@->Obj_0.remove_keys(Set::empty()) =~= with@->Obj_0);
                with
            },
        }
    }
}

proof fn lemma_provider_at(providers: Seq<(Seq<char>, ProviderV)>, name: Seq<char>, i: int)
    requires
        0 <= i,
    ensures
        provider_at(providers, name, i) matches Some(p) ==> i <= p < providers.len(),
    decreases providers.len() - i,
{
    if i < providers.len() && providers[i].0 != name {
        lemma_provider_at(providers, name, i + 1);
    }
}

proof fn lemma_route_provider(c: ConfigV, i: int, k: int)
    requires
        0 <= i <= c.routes.len(),
        routes_result(c, i) is Ok,
        0 <= k < routes_result(c, i)->Ok_0.len(),
    ensures
        exists|p: int|
            0 <= p < c.providers.len() && (#[trigger] c.providers[p]).1 == routes_result(
                c,
                i,
            )->Ok_0[k].1.provider,
    decreases c.routes.len() - i,
{
    if k > 0 {
        lemma_route_provider(c, i + 1, k - 1);
    } else if let Some(name) = provider_prefix(c.routes[i].0) {
        lemma_provider_at(c.providers, name, 0);
        if let Some(p) = provider_at(c.providers, name, 0) {
            assert(c.providers[p].1 == routes_result(c, i)->Ok_0[0].1.provider);
        }
    }
}

proof fn lemma_provider_faultless(providers: Seq<(Seq<char>, ProviderV)>, i: int, p: int)
    requires
        0 <= i <= p < providers.len(),
        providers_fault(providers, i) is None,
    ensures
        provider_fault(providers[p].0, providers[p].1) is None,
    decreases p - i,
{
    if i < p {
        lemma_provider_faultless(providers, i + 1, p);
    }
}

proof fn lemma_allowed_names(names: Seq<Seq<char>>, i: int, k: Seq<char>)
    requires
        0 <= i <= names.len(),
        forbidden_name(names, i) is None,
        forbidden(k),
    ensures
        forall|j: int| i <= j < names.len() ==> #[trigger] names[j] != k,
    decreases names.len() - i,
{
    if i < names.len() {
        lemma_allowed_names(names, i + 1, k);
    }
}

/// Whatever parameters a valid configuration adds or drops, the fields that the
/// router manages reach the provider as they are.
pub proof fn managed_fields_survive(c: ConfigV, i: int, body: JsonV, k: Seq<char>)
    requires
        validated(c) is Ok,
        0 <= i < validated(c)->Ok_0.routes.len(),
        is_managed(k),
    ensures
        sent_body(validated(c)->Ok_0.routes[i].1.provider, body).get(k) == body.get(k),
{
    let provider = validated(c)->Ok_0.routes[i].1.provider;
    lemma_route_provider(c, 0, i);
    let p = choose|p: int|
        0 <= p < c.providers.len() && (#[trigger] c.providers[p]).1 == provider;
    lemma_provider_faultless(c.providers, 0, p);
    if let Some(names) = provider.drop_params {
        lemma_allowed_names(names, 0, k);
        assert(!names.contains(k));
    }
    assert(!added_params(provider).dom().contains(k));
    assert(!dropped_params(provider).contains(k));
}

/// What a provider adds wins, unless it drops it again; what it drops is gone.
pub proof fn params_win(p: ProviderV, body: JsonV, k: Seq<char>)
    requires
        body is Obj,
    ensures
        dropped_params(p).contains(k) ==> sent_body(p, body).get(k) is None,
        !dropped_params(p).contains(k) && added_params(p).dom().contains(k) ==> sent_body(
            p,
            body,
        ).get(k) == Some(added_params(p)[k]),
{
}

/// The key of a provider: the given one, else the one in the environment, else
/// the one in a file, without white space at its ends. `env` is the value of
/// the variable that the provider names, `file` what the file holds that it
/// names.
pub open spec fn key_of(
    p: ProviderV,
    env: Option<Seq<char>>,
    file: Option<Seq<char>>,
) -> Option<Seq<char>> {
    match (p.api_key, p.api_key_env, env) {
        (Some(key), _, _) => Some(key),
        (None, Some(_), Some(value)) => Some(value),
        _ => match (p.api_key_file, file) {
            (Some(_), Some(text)) => Some(trimmed(text)),
            _ => None,
        },
    }
}

impl ProviderConfig {
    /// The key of this provider, by what its environment variable and its file
    /// hold; none where no source that it names holds one.
    pub fn resolve_api_key(&self, env: Option<&str>, file: Option<&str>) -> (r: Option<String>)
        ensures
            opt_str(r) == key_of(self@, opt_text(env), opt_text(file)),
    {
        if let Some(key) = &self.api_key {
            return Some(key.clone());
        }
        if self.api_key_env.is_some() {
            if let Some(value) = env {
                return Some(value.to_owned());
            }
        }
        if self.api_key_file.is_some() {
            if let Some(text) = file {
                let chars = to_chars(text);
                assert(chars@.subrange(0, chars@.len() as int) =~= chars@);
                return Some(trim_slice(&chars, 0, chars.len()));
            }
        }
        None
    }
}

} // verus!
