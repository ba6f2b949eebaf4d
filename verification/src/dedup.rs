//! The Deduplicator: merges Model fragments that share a canonical name
//! within one namespace level, keeping everything else in order.

use crate::fragment::{frag_model, frags_model, Fragment, GFragment};
use crate::outside::{join_with, spec_join};
use crate::text::str_eq;
use vstd::prelude::*;

verus! {

pub open spec fn is_model_frag(f: GFragment) -> bool {
    match f {
        GFragment::Model { .. } => true,
        _ => false,
    }
}

pub open spec fn model_name(f: GFragment) -> Seq<char> {
    match f {
        GFragment::Model { name, .. } => name,
        _ => Seq::empty(),
    }
}

pub open spec fn model_content(f: GFragment) -> Seq<char> {
    match f {
        GFragment::Model { content, .. } => content,
        _ => Seq::empty(),
    }
}

/// The fragments that are not Models, in their original order.
pub open spec fn non_models(fs: Seq<GFragment>) -> Seq<GFragment>
    decreases fs.len(),
{
    if fs.len() == 0 {
        Seq::empty()
    } else if is_model_frag(fs.last()) {
        non_models(fs.drop_last())
    } else {
        non_models(fs.drop_last()).push(fs.last())
    }
}

/// The Model fragments, in their original order.
pub open spec fn models_of(fs: Seq<GFragment>) -> Seq<GFragment>
    decreases fs.len(),
{
    if fs.len() == 0 {
        Seq::empty()
    } else if is_model_frag(fs.last()) {
        models_of(fs.drop_last()).push(fs.last())
    } else {
        models_of(fs.drop_last())
    }
}

/// The distinct canonical Model names, in first-seen order.
pub open spec fn model_names(fs: Seq<GFragment>) -> Seq<Seq<char>>
    decreases fs.len(),
{
    if fs.len() == 0 {
        Seq::empty()
    } else {
        let rest = model_names(fs.drop_last());
        if is_model_frag(fs.last()) && !rest.contains(model_name(fs.last())) {
            rest.push(model_name(fs.last()))
        } else {
            rest
        }
    }
}

/// The contents of the Model fragments named `n`, in their original order.
pub open spec fn contents_for(fs: Seq<GFragment>, n: Seq<char>) -> Seq<Seq<char>>
    decreases fs.len(),
{
    if fs.len() == 0 {
        Seq::empty()
    } else {
        let rest = contents_for(fs.drop_last(), n);
        if is_model_frag(fs.last()) && model_name(fs.last()) == n {
            rest.push(model_content(fs.last()))
        } else {
            rest
        }
    }
}

/// One merged Model per distinct name: the contributing contents joined, in
/// first-seen order, with a line break between them.
pub open spec fn merged_models(fs: Seq<GFragment>) -> Seq<GFragment> {
    Seq::new(
        model_names(fs).len(),
        |i: int|
            GFragment::Model {
                name: model_names(fs)[i],
                content: spec_join(contents_for(fs, model_names(fs)[i]), "\n"@),
            },
    )
}

/// What deduplication yields: every non-Model fragment in order, then one
/// merged Model per distinct name.
pub open spec fn spec_dedup(fs: Seq<GFragment>) -> Seq<GFragment> {
    non_models(fs) + merged_models(fs)
}

/// Collecting contents for one name sees only the Model fragments.
proof fn lemma_contents_models(fs: Seq<GFragment>, n: Seq<char>)
    ensures
        contents_for(models_of(fs), n) == contents_for(fs, n),
    decreases fs.len(),
{
    if fs.len() > 0 {
        lemma_contents_models(fs.drop_last(), n);
        if is_model_frag(fs.last()) {
            assert(models_of(fs).drop_last() =~= models_of(fs.drop_last()));
        }
        assert(contents_for(models_of(fs), n) =~= contents_for(fs, n));
    }
}

/// The distinct names are likewise read off the Model fragments alone.
proof fn lemma_names_models(fs: Seq<GFragment>)
    ensures
        model_names(models_of(fs)) == model_names(fs),
    decreases fs.len(),
{
    if fs.len() > 0 {
        lemma_names_models(fs.drop_last());
        if is_model_frag(fs.last()) {
            assert(models_of(fs).drop_last() =~= models_of(fs.drop_last()));
        }
    }
}

/// Whether `n` is among the collected names.
fn contains_name(names: &Vec<String>, n: &str) -> (r: bool)
    ensures
        r == names.deep_view().contains(n@),
{
    let mut j: usize = 0;
    while j < names.len()
        invariant
            j <= names@.len(),
            forall|k: int| 0 <= k < j ==> names.deep_view()[k] != n@,
        decreases names@.len() - j,
    {
        if str_eq(names[j].as_str(), n) {
            proof {
                assert(names.deep_view()[j as int] == n@);
            }
            return true;
        }
        proof {
            assert(names.deep_view()[j as int] == names@[j as int]@);
        }
        j = j + 1;
    }
    proof {
        assert(forall|k: int|
            0 <= k < names.deep_view().len() ==> names.deep_view()[k] != n@);
    }
    false
}

/// Splits the fragments into Models (grouped by canonical name) and all
/// others (order preserved), then appends one merged Model per name, its
/// content the contributing contents joined with a line break, first-seen
/// order.
pub fn dedup_fragments(fragments: Vec<Fragment>) -> (r: Vec<Fragment>)
    ensures
        frags_model(r@) == spec_dedup(frags_model(fragments@)),
{
    let ghost oseq = fragments@;
    let ghost gorig = frags_model(oseq);
    proof {
        lemma_frags_model_len(oseq);
    }
    let mut rest = fragments;
    let mut others: Vec<Fragment> = Vec::new();
    let mut models: Vec<Fragment> = Vec::new();
    let mut names: Vec<String> = Vec::new();
    let ghost k: int = 0;
    proof {
        assert(oseq.subrange(0, 0) =~= Seq::<Fragment>::empty());
    }
    while rest.len() > 0
        invariant
            0 <= k <= oseq.len(),
            rest@ == oseq.subrange(k, oseq.len() as int),
            frags_model(others@) == non_models(frags_model(oseq.subrange(0, k))),
            frags_model(models@) == models_of(frags_model(oseq.subrange(0, k))),
            names.deep_view() == model_names(frags_model(oseq.subrange(0, k))),
        decreases rest@.len(),
    {
        let f = rest.remove(0);
        proof {
            assert(f == oseq[k]);
            assert(rest@ =~= oseq.subrange(k + 1, oseq.len() as int));
        }
        let ghost prefix = frags_model(oseq.subrange(0, k));
        let ghost next_prefix = frags_model(oseq.subrange(0, k + 1));
        proof {
            assert(oseq.subrange(0, k + 1).drop_last() =~= oseq.subrange(0, k));
            assert(next_prefix == prefix.push(frag_model(oseq[k])));
            assert(next_prefix.drop_last() =~= prefix);
        }
        let is_model = match &f {
            Fragment::Model { .. } => true,
            _ => false,
        };
        if is_model {
            let nm_is_new = match &f {
                Fragment::Model { name, .. } => !contains_name(&names, name.as_str()),
                _ => false,
            };
            if nm_is_new {
                match &f {
                    Fragment::Model { name, .. } => {
                        let ghost prev_names = names.deep_view();
                        names.push(name.clone());
                        proof {
                            assert(names.deep_view() =~= prev_names.push(name@));
                        }
                    },
                    _ => {},
                }
            }
            let ghost prev_models = models@;
            models.push(f);
            proof {
                assert(models@.drop_last() =~= prev_models);
                assert(frags_model(models@) =~= models_of(next_prefix));
                assert(names.deep_view() =~= model_names(next_prefix));
                assert(frags_model(others@) =~= non_models(next_prefix));
            }
        } else {
            let ghost prev_others = others@;
            others.push(f);
            proof {
                assert(others@.drop_last() =~= prev_others);
                assert(frags_model(others@) =~= non_models(next_prefix));
                assert(frags_model(models@) =~= models_of(next_prefix));
                assert(names.deep_view() =~= model_names(next_prefix));
            }
        }
        proof {
            k = k + 1;
        }
    }
    proof {
        assert(oseq.subrange(0, oseq.len() as int) =~= oseq);
        lemma_names_models(gorig);
    }
    let mut res = others;
    let ghost gmodels = frags_model(models@);
    let mut t: usize = 0;
    proof {
        lemma_frags_model_len(models@);
        assert(frags_model(res@) + merged_models(gorig).subrange(0, 0) =~= frags_model(res@));
    }
    while t < names.len()
        invariant
            t <= names@.len(),
            names.deep_view() == model_names(gorig),
            frags_model(models@) == gmodels,
            gmodels == models_of(gorig),
            frags_model(res@) == non_models(gorig) + merged_models(gorig).subrange(0, t as int),
        decreases names@.len() - t,
    {
        let nm = &names[t];
        let mut parts: Vec<String> = Vec::new();
        let mut j: usize = 0;
        proof {
            lemma_frags_model_len(models@);
            assert(parts.deep_view() =~= contents_for(gmodels.subrange(0, 0), nm@));
        }
        while j < models.len()
            invariant
                j <= models@.len(),
                frags_model(models@) == gmodels,
                gmodels.len() == models@.len(),
                parts.deep_view() == contents_for(gmodels.subrange(0, j as int), nm@),
            decreases models@.len() - j,
        {
            proof {
                lemma_frags_model_index(models@, j as int);
                assert(gmodels.subrange(0, j + 1).drop_last() =~= gmodels.subrange(0, j as int));
            }
            match &models[j] {
                Fragment::Model { name, content } => {
                    if str_eq(name.as_str(), nm.as_str()) {
                        let ghost prev_parts = parts.deep_view();
                        parts.push(content.clone());
                        proof {
                            assert(parts.deep_view() =~= prev_parts.push(content@));
                        }
                    }
                },
                _ => {},
            }
            j = j + 1;
        }
        proof {
            assert(gmodels.subrange(0, gmodels.len() as int) =~= gmodels);
            lemma_contents_models(gorig, nm@);
        }
        let content = join_with(&parts, "\n");
        let ghost prev_res = res@;
        let new_frag = Fragment::Model { name: nm.clone(), content };
        let ghost gf = frag_model(new_frag);
        res.push(new_frag);
        t = t + 1;
        proof {
            assert(res@.drop_last() =~= prev_res);
            assert(frag_model(res@.last()) == gf);
            assert(names.deep_view()[t - 1] == names@[t - 1]@);
            assert(parts.deep_view() == contents_for(gorig, names.deep_view()[t - 1]));
            assert(frag_model(res@.last()) == merged_models(gorig)[t - 1]);
            assert(merged_models(gorig).subrange(0, t as int).drop_last()
                =~= merged_models(gorig).subrange(0, t - 1));
            assert(frags_model(res@) == frags_model(prev_res).push(frag_model(res@.last())));
            assert(frags_model(res@) =~= non_models(gorig) + merged_models(gorig).subrange(
                0,
                t as int,
            ));
        }
    }
    proof {
        lemma_frags_model_len(models@);
        assert(merged_models(gorig).subrange(0, merged_models(gorig).len() as int) =~= merged_models(
            gorig,
        ));
        assert(names@.len() == model_names(gorig).len());
    }
    res
}

/// A fragment sequence and its model have the same length.
pub proof fn lemma_frags_model_len(s: Seq<Fragment>)
    ensures
        frags_model(s).len() == s.len(),
    decreases s.len(),
{
    if s.len() > 0 {
        lemma_frags_model_len(s.drop_last());
    }
}

/// The model of a fragment sequence is elementwise.
pub proof fn lemma_frags_model_index(s: Seq<Fragment>, i: int)
    requires
        0 <= i < s.len(),
    ensures
        frags_model(s).len() == s.len(),
        frags_model(s)[i] == frag_model(s[i]),
    decreases s.len(),
{
    lemma_frags_model_len(s);
    if i < s.len() - 1 {
        lemma_frags_model_index(s.drop_last(), i);
    }
}

} // verus!
