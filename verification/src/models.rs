//! Detection results and model listing for the preinstalled CLI backend:
//! interpreting the CLI's own version output, parsing its model listing,
//! reading display names out of its configuration file, and making a raw
//! model key readable. Running the CLI and reading the file stay outside
//! the library.

use vstd::prelude::*;
use crate::json::{pair_models_of, spec_get, JsonModel, JsonValue};
use crate::normalize::get_str;
use crate::strutil::{
    contains_chars, has_char, idx_of, find_char, split_char, str_contains, str_eq, str_has_char,
    str_split_char, trim, trimmed,
};
use vstd::string::StringExecFns;
use vstd::string::StrSliceExecFns;

verus! {

/// Status of the preinstalled CLI.
pub struct OpenCodeCliStatus {
    pub installed: bool,
    pub version: Option<String>,
    pub path: Option<String>,
}

/// One available model.
pub struct OpenCodeModel {
    pub id: String,
    pub name: String,
    pub provider: String,
}

#[verifier::ext_equal]
pub struct OpenCodeModelModel {
    pub id: Seq<char>,
    pub name: Seq<char>,
    pub provider: Seq<char>,
}

impl View for OpenCodeModel {
    type V = OpenCodeModelModel;

    open spec fn view(&self) -> OpenCodeModelModel {
        OpenCodeModelModel { id: self.id@, name: self.name@, provider: self.provider@ }
    }
}

impl DeepView for OpenCodeModel {
    type V = OpenCodeModelModel;

    open spec fn deep_view(&self) -> OpenCodeModelModel {
        self.view()
    }
}

/// The version string of a successful version command: its trimmed
/// output, when there is any.
pub fn version_from_output(success: bool, stdout: &str) -> (r: Option<String>)
    ensures
        r is Some <==> (success && trimmed(stdout@).len() > 0),
        r is Some ==> r->0@ == trimmed(stdout@),
{
    if !success {
        return None;
    }
    let t = trim(stdout);
    if t.unicode_len() == 0 {
        None
    } else {
        Some(String::from_str(t))
    }
}

/// What the uppercase mapping of one character is; it depends on the
/// character alone.
pub uninterp spec fn upper_of(c: char) -> Seq<char>;

/// Relies on char::to_uppercase: the Unicode uppercase mapping of the
/// character, one or more characters long.
#[verifier::external_body]
fn char_upper(c: char) -> (r: String)
    ensures
        r@ == upper_of(c),
        r@.len() >= 1,
{
    c.to_uppercase().collect()
}

/// A word with its first character uppercased.
pub open spec fn cap_word(w: Seq<char>) -> Seq<char> {
    if w.len() == 0 {
        Seq::empty()
    } else {
        upper_of(w[0]) + w.drop_first()
    }
}

pub open spec fn cap_words(parts: Seq<Seq<char>>) -> Seq<Seq<char>>
    decreases parts.len(),
{
    if parts.len() == 0 {
        Seq::empty()
    } else {
        seq![cap_word(parts[0])] + cap_words(parts.drop_first())
    }
}

pub open spec fn join_space(parts: Seq<Seq<char>>) -> Seq<char>
    decreases parts.len(),
{
    if parts.len() == 0 {
        Seq::empty()
    } else if parts.len() == 1 {
        parts[0]
    } else {
        parts[0] + seq![' '] + join_space(parts.drop_first())
    }
}

/// A model key made readable: its dash-separated words, each uppercased
/// at the front, joined by spaces.
pub open spec fn spec_humanize(key: Seq<char>) -> Seq<char> {
    join_space(cap_words(split_char(key, '-')))
}

proof fn lemma_cap_words_push(parts: Seq<Seq<char>>, x: Seq<char>)
    ensures
        cap_words(parts.push(x)) == cap_words(parts).push(cap_word(x)),
    decreases parts.len(),
{
    let p = parts.push(x);
    if parts.len() == 0 {
        assert(p[0] == x);
        assert(p.drop_first() =~= Seq::<Seq<char>>::empty());
        assert(cap_words(p.drop_first()) == Seq::<Seq<char>>::empty());
        assert(cap_words(p) =~= cap_words(parts).push(cap_word(x)));
    } else {
        assert(p[0] == parts[0]);
        assert(p.drop_first() =~= parts.drop_first().push(x));
        lemma_cap_words_push(parts.drop_first(), x);
        assert(cap_words(p) =~= cap_words(parts).push(cap_word(x)));
    }
}

proof fn lemma_join_space_push(parts: Seq<Seq<char>>, x: Seq<char>)
    ensures
        join_space(parts.push(x)) == if parts.len() == 0 {
            x
        } else {
            join_space(parts) + seq![' '] + x
        },
    decreases parts.len(),
{
    let p = parts.push(x);
    if parts.len() == 0 {
        assert(p[0] == x);
    } else {
        assert(p[0] == parts[0]);
        assert(p.drop_first() =~= parts.drop_first().push(x));
        lemma_join_space_push(parts.drop_first(), x);
        if parts.len() == 1 {
            assert(join_space(p) =~= join_space(parts) + seq![' '] + x);
        } else {
            assert(join_space(p) =~= join_space(parts) + seq![' '] + x);
        }
    }
}

/// Convert a model key like `horizon-mini` into a readable name like
/// `Horizon Mini`.
#[verifier::loop_isolation(false)]
pub fn humanize_model_name(key: &str) -> (r: String)
    ensures
        r@ == spec_humanize(key@),
{
    let words = str_split_char(key, '-');
    let ghost wv = words.deep_view();
    let mut out = String::new();
    proof {
        assert(wv.take(0) =~= Seq::<Seq<char>>::empty());
        assert(out@ =~= join_space(cap_words(wv.take(0))));
    }
    let mut i: usize = 0;
    while i < words.len()
        invariant
            i <= words@.len(),
            out@ == join_space(cap_words(wv.take(i as int))),
        decreases words@.len() - i,
    {
        proof {
            lemma_cap_words_push(wv.take(i as int), wv[i as int]);
            lemma_join_space_push(cap_words(wv.take(i as int)), cap_word(wv[i as int]));
            assert(wv.take(i + 1) =~= wv.take(i as int).push(wv[i as int]));
            assert(cap_words(wv.take(i as int)).len() == wv.take(i as int).len()) by {
                lemma_cap_words_len(wv.take(i as int));
            }
        }
        if i > 0 {
            crate::strutil::push_char(&mut out, ' ');
        }
        let w = &words[i];
        let wlen = w.as_str().unicode_len();
        if wlen > 0 {
            let up = char_upper(w.as_str().get_char(0));
            out.append(up.as_str());
            out.append(w.as_str().substring_char(1, wlen));
            proof {
                assert(w@.subrange(1, w@.len() as int) =~= w@.drop_first());
            }
        }
        proof {
            assert(out@ =~= join_space(cap_words(wv.take(i + 1))));
        }
        i = i + 1;
    }
    proof {
        assert(wv.take(words@.len() as int) =~= wv);
    }
    out
}

proof fn lemma_cap_words_len(parts: Seq<Seq<char>>)
    ensures
        cap_words(parts).len() == parts.len(),
    decreases parts.len(),
{
    if parts.len() > 0 {
        lemma_cap_words_len(parts.drop_first());
    }
}

/// One string starts with another.
pub open spec fn starts_with(s: Seq<char>, p: Seq<char>) -> bool {
    p.len() <= s.len() && s.take(p.len() as int) == p
}

/// The display name recorded for an id, if the configuration names it.
pub open spec fn assoc_name(names: Seq<(Seq<char>, Seq<char>)>, k: Seq<char>) -> Option<Seq<char>>
    decreases names.len(),
{
    if names.len() == 0 {
        None
    } else if names[0].0 == k {
        Some(names[0].1)
    } else {
        assoc_name(names.drop_first(), k)
    }
}

/// What one line of the model listing yields: nothing for blank lines,
/// help text (it starts with the command name or holds a double space)
/// and lines without a provider separator; otherwise the model, named
/// from the configuration or from its humanized key.
pub open spec fn spec_parse_model_line(
    line: Seq<char>,
    names: Seq<(Seq<char>, Seq<char>)>,
) -> Option<OpenCodeModelModel> {
    let t = trimmed(line);
    if t.len() == 0 {
        None
    } else if starts_with(t, "opencode "@) || contains_chars(t, "  "@) || !has_char(t, '/') {
        None
    } else {
        let i = idx_of(t, '/');
        let provider = trimmed(t.take(i));
        let model_key = trimmed(t.skip(i + 1));
        let name = match assoc_name(names, t) {
            Some(n) => n,
            None => spec_humanize(model_key),
        };
        Some(OpenCodeModelModel { id: t, name: name, provider: provider })
    }
}

pub open spec fn spec_parse_models(
    lines: Seq<Seq<char>>,
    names: Seq<(Seq<char>, Seq<char>)>,
) -> Seq<OpenCodeModelModel>
    decreases lines.len(),
{
    if lines.len() == 0 {
        Seq::empty()
    } else {
        let rest = spec_parse_models(lines.drop_first(), names);
        match spec_parse_model_line(lines[0], names) {
            Some(m) => seq![m] + rest,
            None => rest,
        }
    }
}

proof fn lemma_parse_models_push(
    lines: Seq<Seq<char>>,
    names: Seq<(Seq<char>, Seq<char>)>,
    x: Seq<char>,
)
    ensures
        spec_parse_models(lines.push(x), names) == match spec_parse_model_line(x, names) {
            Some(m) => spec_parse_models(lines, names).push(m),
            None => spec_parse_models(lines, names),
        },
    decreases lines.len(),
{
    let p = lines.push(x);
    if lines.len() == 0 {
        assert(p[0] == x);
        assert(p.drop_first() =~= Seq::<Seq<char>>::empty());
        assert(spec_parse_models(p.drop_first(), names) == Seq::<OpenCodeModelModel>::empty());
        match spec_parse_model_line(x, names) {
            Some(m) => {
                assert(spec_parse_models(p, names) =~= spec_parse_models(lines, names).push(m));
            },
            None => {},
        }
    } else {
        assert(p[0] == lines[0]);
        assert(p.drop_first() =~= lines.drop_first().push(x));
        lemma_parse_models_push(lines.drop_first(), names, x);
        match spec_parse_model_line(x, names) {
            Some(m) => {
                assert(spec_parse_models(p, names) =~= spec_parse_models(lines, names).push(m));
            },
            None => {
                assert(spec_parse_models(p, names) =~= spec_parse_models(lines, names));
            },
        }
    }
}

fn lookup_name(names: &Vec<(String, String)>, k: &str) -> (r: Option<String>)
    ensures
        match r {
            Some(n) => assoc_name(names.deep_view(), k@) == Some(n@),
            None => assoc_name(names.deep_view(), k@) is None,
        },
{
    let ghost nv = names.deep_view();
    proof {
        assert(nv.skip(0) =~= nv);
    }
    let mut i: usize = 0;
    while i < names.len()
        invariant
            i <= names@.len(),
            nv == names.deep_view(),
            assoc_name(nv, k@) == assoc_name(nv.skip(i as int), k@),
        decreases names@.len() - i,
    {
        proof {
            assert(nv.skip(i as int)[0] == nv[i as int]);
            assert(nv.skip(i as int).drop_first() =~= nv.skip(i + 1));
        }
        if str_eq(names[i].0.as_str(), k) {
            return Some(names[i].1.clone());
        }
        i = i + 1;
    }
    proof {
        assert(nv.skip(names@.len() as int) =~= Seq::<(Seq<char>, Seq<char>)>::empty());
    }
    None
}

/// Parse the model listing the CLI prints, one `provider/model-key` per
/// line, enriched with display names from the configuration.
#[verifier::loop_isolation(false)]
pub fn parse_opencode_models(stdout: &str, names: &Vec<(String, String)>) -> (r: Vec<
    OpenCodeModel,
>)
    ensures
        r.deep_view() == spec_parse_models(split_char(stdout@, '\n'), names.deep_view()),
{
    let lines = str_split_char(stdout, '\n');
    let ghost lv = lines.deep_view();
    let ghost nv = names.deep_view();
    let mut out: Vec<OpenCodeModel> = Vec::new();
    proof {
        assert(lv.take(0) =~= Seq::<Seq<char>>::empty());
        assert(out.deep_view() =~= spec_parse_models(lv.take(0), nv));
    }
    let mut i: usize = 0;
    while i < lines.len()
        invariant
            i <= lines@.len(),
            out.deep_view() == spec_parse_models(lv.take(i as int), nv),
        decreases lines@.len() - i,
    {
        proof {
            lemma_parse_models_push(lv.take(i as int), nv, lv[i as int]);
            assert(lv.take(i + 1) =~= lv.take(i as int).push(lv[i as int]));
        }
        let line = &lines[i];
        let t = trim(line.as_str());
        let tlen = t.unicode_len();
        let mut skip = tlen == 0;
        if !skip {
            let p = "opencode ";
            let plen = p.unicode_len();
            if tlen >= plen && str_eq(t.substring_char(0, plen), p) {
                skip = true;
            } else if str_contains(t, "  ") {
                skip = true;
            } else if !str_has_char(t, '/') {
                skip = true;
            }
        }
        if !skip {
            let slash = find_char(t, '/');
            proof {
                crate::strutil::lemma_idx_of(t@, '/');
                crate::strutil::lemma_idx_of_has_char(t@, '/');
            }
            let provider = trim(t.substring_char(0, slash));
            let model_key = trim(t.substring_char(slash + 1, tlen));
            let name = match lookup_name(names, t) {
                Some(n) => n,
                None => humanize_model_name(model_key),
            };
            let ghost ov = out.deep_view();
            out.push(
                OpenCodeModel {
                    id: String::from_str(t),
                    name,
                    provider: String::from_str(provider),
                },
            );
            proof {
                assert(out.deep_view() =~= ov.push(
                    spec_parse_model_line(lv[i as int], nv)->Some_0,
                ));
            }
        }
        i = i + 1;
    }
    proof {
        assert(lv.take(lines@.len() as int) =~= lv);
    }
    out
}

/// One model entry of the configuration: its display name, keyed by
/// `provider/model-key`.
pub open spec fn model_name_entry(pid: Seq<char>, mk: Seq<char>, mv: JsonModel) -> Seq<
    (Seq<char>, Seq<char>),
> {
    match get_str(mv, "name"@) {
        Some(n) => seq![(pid + seq!['/'] + mk, n)],
        None => Seq::empty(),
    }
}

pub open spec fn provider_model_names(pid: Seq<char>, ms: Seq<(Seq<char>, JsonModel)>) -> Seq<
    (Seq<char>, Seq<char>),
>
    decreases ms.len(),
{
    if ms.len() == 0 {
        Seq::empty()
    } else {
        model_name_entry(pid, ms[0].0, ms[0].1) + provider_model_names(pid, ms.drop_first())
    }
}

pub open spec fn provider_entry(p: (Seq<char>, JsonModel)) -> Seq<(Seq<char>, Seq<char>)> {
    match spec_get(p.1, "models"@) {
        Some(m) => match m {
            JsonModel::Obj(ms) => provider_model_names(p.0, ms),
            _ => Seq::empty(),
        },
        None => Seq::empty(),
    }
}

pub open spec fn providers_names(ps: Seq<(Seq<char>, JsonModel)>) -> Seq<(Seq<char>, Seq<char>)>
    decreases ps.len(),
{
    if ps.len() == 0 {
        Seq::empty()
    } else {
        provider_entry(ps[0]) + providers_names(ps.drop_first())
    }
}

/// The display names the configuration records, keyed by
/// `provider/model-key`, in configuration order.
pub open spec fn spec_model_names(config: JsonModel) -> Seq<(Seq<char>, Seq<char>)> {
    match spec_get(config, "provider"@) {
        Some(p) => match p {
            JsonModel::Obj(ps) => providers_names(ps),
            _ => Seq::empty(),
        },
        None => Seq::empty(),
    }
}

proof fn lemma_provider_model_names_push(
    pid: Seq<char>,
    ms: Seq<(Seq<char>, JsonModel)>,
    x: (Seq<char>, JsonModel),
)
    ensures
        provider_model_names(pid, ms.push(x)) == provider_model_names(pid, ms)
            + model_name_entry(pid, x.0, x.1),
    decreases ms.len(),
{
    let p = ms.push(x);
    if ms.len() == 0 {
        assert(p[0] == x);
        assert((p[0].0, p[0].1) =~= x);
        assert(p.drop_first() =~= Seq::<(Seq<char>, JsonModel)>::empty());
        assert(provider_model_names(pid, p.drop_first()) == Seq::<(Seq<char>, Seq<char>)>::empty());
        assert(provider_model_names(pid, p) =~= provider_model_names(pid, ms) + model_name_entry(
            pid,
            x.0,
            x.1,
        ));
    } else {
        assert(p[0] == ms[0]);
        assert(p.drop_first() =~= ms.drop_first().push(x));
        lemma_provider_model_names_push(pid, ms.drop_first(), x);
        assert(provider_model_names(pid, p) =~= provider_model_names(pid, ms) + model_name_entry(
            pid,
            x.0,
            x.1,
        ));
    }
}

proof fn lemma_providers_names_push(ps: Seq<(Seq<char>, JsonModel)>, x: (Seq<char>, JsonModel))
    ensures
        providers_names(ps.push(x)) == providers_names(ps) + provider_entry(x),
    decreases ps.len(),
{
    let p = ps.push(x);
    if ps.len() == 0 {
        assert(p[0] == x);
        assert((p[0].0, p[0].1) =~= x);
        assert(p.drop_first() =~= Seq::<(Seq<char>, JsonModel)>::empty());
        assert(providers_names(p.drop_first()) == Seq::<(Seq<char>, Seq<char>)>::empty());
        assert(providers_names(p) =~= providers_names(ps) + provider_entry(x));
    } else {
        assert(p[0] == ps[0]);
        assert(p.drop_first() =~= ps.drop_first().push(x));
        lemma_providers_names_push(ps.drop_first(), x);
        assert(providers_names(p) =~= providers_names(ps) + provider_entry(x));
    }
}

/// Read the model display names out of the CLI's configuration value.
#[verifier::loop_isolation(false)]
pub fn extract_model_names(config: &JsonValue) -> (r: Vec<(String, String)>)
    ensures
        r.deep_view() == spec_model_names(config@),
{
    let mut out: Vec<(String, String)> = Vec::new();
    proof {
        assert(out.deep_view() =~= Seq::<(Seq<char>, Seq<char>)>::empty());
    }
    match config.get("provider") {
        Some(pv) => {
            match pv.as_object() {
                Some(providers) => {
                    proof {
                        crate::json::lemma_pair_models_of_index(providers@);
                    }
                    let ghost psm = pair_models_of(providers@);
                    let mut i: usize = 0;
                    while i < providers.len()
                        invariant
                            i <= providers@.len(),
                            psm == pair_models_of(providers@),
                            psm.len() == providers@.len(),
                            forall|j: int|
                                0 <= j < providers@.len() ==> psm[j] == ((
                                #[trigger] providers@[j]).0@, crate::json::model_of(
                                    providers@[j].1,
                                )),
                            out.deep_view() == providers_names(psm.take(i as int)),
                        decreases providers@.len() - i,
                    {
                        proof {
                            lemma_providers_names_push(psm.take(i as int), psm[i as int]);
                            assert(psm.take(i + 1) =~= psm.take(i as int).push(psm[i as int]));
                        }
                        let pid = &providers[i].0;
                        let pval = &providers[i].1;
                        match pval.get("models") {
                            Some(mval) => {
                                match mval.as_object() {
                                    Some(ms) => {
                                        proof {
                                            crate::json::lemma_pair_models_of_index(ms@);
                                        }
                                        let ghost msm = pair_models_of(ms@);
                                        let ghost before = out.deep_view();
                                        let mut k: usize = 0;
                                        while k < ms.len()
                                            invariant
                                                k <= ms@.len(),
                                                msm == pair_models_of(ms@),
                                                msm.len() == ms@.len(),
                                                forall|j: int|
                                                    0 <= j < ms@.len() ==> msm[j] == ((
                                                    #[trigger] ms@[j]).0@,
                                                    crate::json::model_of(ms@[j].1)),
                                                out.deep_view() == before
                                                    + provider_model_names(
                                                    pid@,
                                                    msm.take(k as int),
                                                ),
                                            decreases ms@.len() - k,
                                        {
                                            proof {
                                                lemma_provider_model_names_push(
                                                    pid@,
                                                    msm.take(k as int),
                                                    msm[k as int],
                                                );
                                                assert(msm.take(k + 1) =~= msm.take(
                                                    k as int,
                                                ).push(msm[k as int]));
                                            }
                                            let mk = &ms[k].0;
                                            let mv = &ms[k].1;
                                            match mv.get("name") {
                                                Some(nval) => {
                                                    match nval.as_str() {
                                                        Some(n) => {
                                                            let mut full_id = pid.clone();
                                                            crate::strutil::push_char(
                                                                &mut full_id,
                                                                '/',
                                                            );
                                                            full_id.append(mk.as_str());
                                                            let ghost ov = out.deep_view();
                                                            proof {
                                                                assert(full_id@ =~= pid@
                                                                    + seq!['/'] + msm[k as int].0);
                                                            }
                                                            out.push(
                                                                (
                                                                    full_id,
                                                                    String::from_str(n),
                                                                ),
                                                            );
                                                            proof {
                                                                assert(out.deep_view() =~= ov
                                                                    + model_name_entry(
                                                                    pid@,
                                                                    msm[k as int].0,
                                                                    msm[k as int].1,
                                                                ));
                                                            }
                                                        },
                                                        None => {
                                                            proof {
                                                                assert(out.deep_view()
                                                                    =~= out.deep_view()
                                                                    + model_name_entry(
                                                                    pid@,
                                                                    msm[k as int].0,
                                                                    msm[k as int].1,
                                                                ));
                                                            }
                                                        },
                                                    }
                                                },
                                                None => {
                                                    proof {
                                                        assert(out.deep_view() =~= out.deep_view()
                                                            + model_name_entry(
                                                            pid@,
                                                            msm[k as int].0,
                                                            msm[k as int].1,
                                                        ));
                                                    }
                                                },
                                            }
                                            k = k + 1;
                                        }
                                        proof {
                                            assert(msm.take(ms@.len() as int) =~= msm);
                                            assert(out.deep_view() =~= providers_names(
                                                psm.take(i + 1),
                                            ));
                                        }
                                    },
                                    None => {
                                        proof {
                                            assert(out.deep_view() =~= out.deep_view()
                                                + provider_entry(psm[i as int]));
                                        }
                                    },
                                }
                            },
                            None => {
                                proof {
                                    assert(out.deep_view() =~= out.deep_view() + provider_entry(
                                        psm[i as int],
                                    ));
                                }
                            },
                        }
                        i = i + 1;
                    }
                    proof {
                        assert(psm.take(providers@.len() as int) =~= psm);
                    }
                },
                None => {},
            }
        },
        None => {},
    }
    out
}

} // verus!
