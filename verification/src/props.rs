//! The pipeline's stated laws, proved over the same spec functions its
//! contracts use.

use crate::decl::{stmt_cursor, Stmt};
use crate::dedup::{contents_for, is_model_frag, merged_models, model_names, spec_dedup};
use crate::fragment::{spec_fn_code, spec_stmts_text, GFragment};
use crate::module::{
    filter_map, leaf_mod, leaf_sel, model_mods, spec_build, spec_lib_use,
    GModule, LeafKind,
};
use crate::outside::spec_join;
use crate::text::{contains_seq, loc_offset, sub_at};
use vstd::prelude::*;

verus! {

/// The distinct first-seen Model names never repeat.
pub proof fn lemma_model_names_distinct(fs: Seq<GFragment>)
    ensures
        forall|i: int, j: int|
            0 <= i < j < model_names(fs).len() ==> model_names(fs)[i] != model_names(fs)[j],
    decreases fs.len(),
{
    if fs.len() > 0 {
        lemma_model_names_distinct(fs.drop_last());
        let rest = model_names(fs.drop_last());
        if is_model_frag(fs.last()) && !rest.contains(crate::dedup::model_name(fs.last())) {
            assert(forall|i: int| 0 <= i < rest.len() ==> model_names(fs)[i] == rest[i]);
        }
    }
}

/// A selector that picks something from every fragment maps the list
/// pointwise.
pub proof fn lemma_filter_map_all_some<T>(fs: Seq<GFragment>, sel: spec_fn(GFragment) -> Option<T>)
    requires
        forall|i: int| 0 <= i < fs.len() ==> (#[trigger] sel(fs[i])) is Some,
    ensures
        filter_map(fs, sel).len() == fs.len(),
        forall|i: int| 0 <= i < fs.len() ==> Some(#[trigger] filter_map(fs, sel)[i]) == sel(fs[i]),
    decreases fs.len(),
{
    if fs.len() > 0 {
        lemma_filter_map_all_some(fs.drop_last(), sel);
    }
}

/// The merged Models carry the distinct names, in order.
pub proof fn lemma_merged_models_pointwise(fs: Seq<GFragment>, lib_use: Seq<char>)
    ensures
        model_mods(fs, lib_use).len() == model_names(fs).len(),
        forall|i: int|
            0 <= i < model_names(fs).len() ==> #[trigger] model_mods(fs, lib_use)[i] == leaf_mod(
                model_names(fs)[i],
                lib_use,
                spec_join(contents_for(fs, model_names(fs)[i]), "\n"@),
            ),
{
    let sel = leaf_sel(LeafKind::ModelLeaf, lib_use);
    crate::module::lemma_merged_all_models(fs);
    assert(forall|i: int|
        0 <= i < merged_models(fs).len() ==> (#[trigger] sel(merged_models(fs)[i])) is Some);
    lemma_filter_map_all_some(merged_models(fs), sel);
}

/// After the pipeline runs, no two sibling Model files at one namespace
/// level share a canonical name: the models aggregator's children carry
/// pairwise distinct names.
pub proof fn law_sibling_model_names_distinct(fs: Seq<GFragment>, top: bool)
    ensures
        ({
            let models = spec_build(fs, top)[2];
            &&& models matches GModule::Lib { name, modules, .. } && name == "models"@
                && (forall|i: int, j: int|
                0 <= i < j < modules.len() ==> match (#[trigger] modules[i], #[trigger] modules[j]) {
                    (
                        GModule::Lib { name: ni, .. },
                        GModule::Lib { name: nj, .. },
                    ) => ni != nj,
                    _ => false,
                })
        }),
{
    let lu = spec_lib_use(fs);
    lemma_model_names_distinct(fs);
    lemma_merged_models_pointwise(fs, lu);
}

/// Whatever a selector picks out of some fragment occurs in the picked list.
pub proof fn lemma_filter_map_member<T>(
    fs: Seq<GFragment>,
    sel: spec_fn(GFragment) -> Option<T>,
    i: int,
    x: T,
)
    requires
        0 <= i < fs.len(),
        sel(fs[i]) == Some(x),
    ensures
        filter_map(fs, sel).contains(x),
    decreases fs.len(),
{
    if i == fs.len() - 1 {
        assert(filter_map(fs, sel).last() == x);
    } else {
        lemma_filter_map_member(fs.drop_last(), sel, i, x);
        let j = choose|j: int|
            0 <= j < filter_map(fs.drop_last(), sel).len() && filter_map(fs.drop_last(), sel)[j]
                == x;
        assert(filter_map(fs, sel)[j] == x);
    }
}

/// A Model fragment's name and content are recorded under its name.
pub proof fn lemma_model_recorded(fs: Seq<GFragment>, i: int, name: Seq<char>, content: Seq<char>)
    requires
        0 <= i < fs.len(),
        fs[i] == (GFragment::Model { name, content }),
    ensures
        model_names(fs).contains(name),
        contents_for(fs, name).contains(content),
    decreases fs.len(),
{
    if i == fs.len() - 1 {
        assert(contents_for(fs, name).last() == content);
        let rest = model_names(fs.drop_last());
        if !rest.contains(name) {
            assert(model_names(fs).last() == name);
        } else {
            let j = choose|j: int| 0 <= j < rest.len() && rest[j] == name;
            assert(model_names(fs)[j] == name);
        }
    } else {
        lemma_model_recorded(fs.drop_last(), i, name, content);
        let j = choose|j: int|
            0 <= j < model_names(fs.drop_last()).len() && model_names(fs.drop_last())[j] == name;
        if is_model_frag(fs.last()) && !model_names(fs.drop_last()).contains(
            crate::dedup::model_name(fs.last()),
        ) {
            assert(model_names(fs)[j] == name);
        } else {
            assert(model_names(fs)[j] == name);
        }
        let c = choose|c: int|
            0 <= c < contents_for(fs.drop_last(), name).len() && contents_for(fs.drop_last(), name)[c]
                == content;
        assert(contents_for(fs, name)[c] == content);
    }
}

/// A prefix of the parts occurs at the front of the joined text.
pub proof fn lemma_join_part_contained(parts: Seq<Seq<char>>, sep: Seq<char>, k: int)
    requires
        0 <= k < parts.len(),
    ensures
        contains_seq(spec_join(parts, sep), parts[k]),
    decreases parts.len(),
{
    let whole = spec_join(parts, sep);
    if parts.len() == 1 {
        assert(whole.subrange(0, whole.len() as int) =~= parts[0]);
        assert(sub_at(whole, parts[k], 0));
    } else if k == parts.len() - 1 {
        let pre = spec_join(parts.drop_last(), sep) + sep;
        assert(whole == pre + parts[k]);
        assert(whole.subrange(pre.len() as int, whole.len() as int) =~= parts[k]);
        assert(sub_at(whole, parts[k], pre.len() as int));
    } else {
        lemma_join_part_contained(parts.drop_last(), sep, k);
        let inner = spec_join(parts.drop_last(), sep);
        let p = choose|p: int| sub_at(inner, parts[k], p);
        assert(whole == inner + sep + parts.last());
        assert(whole.subrange(p, p + parts[k].len() as int) =~= inner.subrange(
            p,
            p + parts[k].len() as int,
        ));
        assert(sub_at(whole, parts[k], p));
    }
}

/// Text that occurs in a part occurs in the whole joined text.
pub proof fn lemma_contained_in_join(parts: Seq<Seq<char>>, sep: Seq<char>, k: int, n: Seq<char>)
    requires
        0 <= k < parts.len(),
        contains_seq(parts[k], n),
    ensures
        contains_seq(spec_join(parts, sep), n),
{
    lemma_join_part_contained(parts, sep, k);
    let p = choose|p: int| sub_at(spec_join(parts, sep), parts[k], p);
    let q = choose|q: int| sub_at(parts[k], n, q);
    assert(spec_join(parts, sep).subrange(p + q, p + q + n.len() as int) =~= parts[k].subrange(
        q,
        q + n.len() as int,
    ));
    assert(sub_at(spec_join(parts, sep), n, p + q));
}

/// Every function or type declaration's rendered text survives into some
/// output file of its level: a handler's or function's own leaf file starts
/// with the import block and then holds the fragment's content whole; a
/// Model's content stands inside the merged file of its canonical name.
#[verifier::rlimit(60)]
pub proof fn law_declaration_text_kept(fs: Seq<GFragment>, top: bool, i: int)
    requires
        0 <= i < fs.len(),
    ensures
        ({
            let built = spec_build(fs, top);
            let lu = spec_lib_use(fs);
            match fs[i] {
                GFragment::ApiResource { name, content } => built[0] matches GModule::Lib {
                    modules,
                    ..
                } && modules.contains(leaf_mod(name, lu, content)),
                GFragment::Function { name, content } => built[1] matches GModule::Lib {
                    modules,
                    ..
                } && modules.contains(leaf_mod(name, lu, content)),
                GFragment::Model { name, content } => built[2] matches GModule::Lib {
                    modules,
                    ..
                } && (exists|j: int|
                    0 <= j < modules.len() && ((#[trigger] modules[j]) matches GModule::Lib {
                        name: mn,
                        content: mc,
                        ..
                    } && mn == name && contains_seq(mc, content))),
                _ => true,
            }
        }),
{
    let lu = spec_lib_use(fs);
    match fs[i] {
        GFragment::ApiResource { name, content } => {
            lemma_filter_map_member(
                fs,
                leaf_sel(LeafKind::Resource, lu),
                i,
                leaf_mod(name, lu, content),
            );
        },
        GFragment::Function { name, content } => {
            lemma_filter_map_member(
                fs,
                leaf_sel(LeafKind::Function, lu),
                i,
                leaf_mod(name, lu, content),
            );
        },
        GFragment::Model { name, content } => {
            lemma_model_recorded(fs, i, name, content);
            lemma_merged_models_pointwise(fs, lu);
            let j = choose|j: int|
                0 <= j < model_names(fs).len() && model_names(fs)[j] == name;
            let k = choose|k: int|
                0 <= k < contents_for(fs, name).len() && contents_for(fs, name)[k] == content;
            assert(contains_seq(content, content)) by {
                assert(content.subrange(0, content.len() as int) =~= content);
                assert(sub_at(content, content, 0));
            }
            lemma_contained_in_join(contents_for(fs, name), "\n"@, k, content);
            let built = spec_build(fs, top);
            assert(built[2] matches GModule::Lib { modules, .. } && modules == model_mods(fs, lu));
            assert(model_mods(fs, lu)[j] == leaf_mod(
                name,
                lu,
                spec_join(contents_for(fs, name), "\n"@),
            ));
            let p = choose|p: int| sub_at(spec_join(contents_for(fs, name), "\n"@), content, p);
            let mc = lu + spec_join(contents_for(fs, name), "\n"@);
            assert(mc.subrange(lu.len() + p, lu.len() + p + content.len() as int) =~= spec_join(
                contents_for(fs, name),
                "\n"@,
            ).subrange(p, p + content.len() as int));
            assert(sub_at(mc, content, lu.len() + p));
        },
        _ => {},
    }
}

/// The first `i` statements' text is a prefix of the first `j` statements'
/// text.
pub proof fn lemma_stmts_text_prefix(s: Seq<char>, from: int, stmts: Seq<Stmt>, i: int, j: int)
    requires
        0 <= i <= j,
    ensures
        spec_stmts_text(s, from, stmts, j).len() >= spec_stmts_text(s, from, stmts, i).len(),
        spec_stmts_text(s, from, stmts, j).subrange(
            0,
            spec_stmts_text(s, from, stmts, i).len() as int,
        ) == spec_stmts_text(s, from, stmts, i),
    decreases j - i,
{
    if i == j {
        assert(spec_stmts_text(s, from, stmts, i).subrange(
            0,
            spec_stmts_text(s, from, stmts, i).len() as int,
        ) =~= spec_stmts_text(s, from, stmts, i));
    } else {
        lemma_stmts_text_prefix(s, from, stmts, i, j - 1);
        assert(spec_stmts_text(s, from, stmts, j).subrange(
            0,
            spec_stmts_text(s, from, stmts, i).len() as int,
        ) =~= spec_stmts_text(s, from, stmts, j - 1).subrange(
            0,
            spec_stmts_text(s, from, stmts, i).len() as int,
        ));
    }
}

/// Every comment standing immediately before a statement of the entry
/// routine stands, unchanged, immediately before that statement's text in
/// the rewritten entry content: at a known position, the rendered code holds
/// the statement's preceding trivia slice directly followed by its text.
pub proof fn law_entry_comment_kept(
    s: Seq<char>,
    f: crate::decl::FnDecl,
    vis: Seq<char>,
    i: int,
)
    requires
        0 <= i < f.stmts@.len(),
        stmt_cursor(s, loc_offset(s, f.body_open), f.stmts@, i) <= loc_offset(s, f.stmts@[i].start)
            <= s.len(),
        0 <= stmt_cursor(s, loc_offset(s, f.body_open), f.stmts@, i),
    ensures
        ({
            let from = loc_offset(s, f.body_open);
            let trivia = s.subrange(
                stmt_cursor(s, from, f.stmts@, i),
                loc_offset(s, f.stmts@[i].start),
            );
            contains_seq(spec_fn_code(s, f, vis), trivia + f.stmts@[i].text@)
        }),
{
    let from = loc_offset(s, f.body_open);
    let stmts = f.stmts@;
    let trivia = s.subrange(stmt_cursor(s, from, stmts, i), loc_offset(s, stmts[i].start));
    let piece = trivia + stmts[i].text@;
    let header = f.attrs@ + " "@ + vis + " "@ + f.sig@ + " "@ + "{"@;
    let all = spec_stmts_text(s, from, stmts, stmts.len() as int);
    let pre = spec_stmts_text(s, from, stmts, i);
    let nxt = spec_stmts_text(s, from, stmts, i + 1);
    let pos = header.len() + pre.len();
    lemma_stmts_text_prefix(s, from, stmts, i + 1, stmts.len() as int);
    assert(nxt =~= pre + piece);
    assert(all.subrange(0, nxt.len() as int) == nxt);
    assert(forall|t: int| 0 <= t < nxt.len() ==> all[t] == #[trigger] nxt[t]) by {
        assert(forall|t: int|
            0 <= t < nxt.len() ==> #[trigger] nxt[t] == all.subrange(0, nxt.len() as int)[t]);
    }
    assert(forall|t: int| 0 <= t < piece.len() ==> nxt[pre.len() + t] == #[trigger] piece[t]);
    let code = spec_fn_code(s, f, vis);
    assert(code == header + all + "}"@);
    assert(forall|t: int| 0 <= t < piece.len() ==> code[pos + t] == #[trigger] piece[t]);
    assert(code.subrange(pos as int, pos + piece.len() as int) =~= piece);
    assert(sub_at(code, piece, pos as int));
}

/// Deduplicating twice is deduplicating once: running the Deduplicator on
/// its own output changes nothing, so re-feeding a level's merged fragments
/// through the pipeline loses no content and splits no merge.
pub proof fn law_dedup_idempotent(fs: Seq<GFragment>)
    ensures
        spec_dedup(spec_dedup(fs)) == spec_dedup(fs),
{
    let dd = spec_dedup(fs);
    lemma_non_models_concat(crate::dedup::non_models(fs), merged_models(fs));
    crate::module::lemma_merged_all_models(fs);
    lemma_non_models_all_models(merged_models(fs));
    lemma_non_models_idem(fs);
    assert(crate::dedup::non_models(dd) =~= crate::dedup::non_models(fs));
    crate::module::lemma_non_models_no_model(fs);
    lemma_names_concat_no_models(crate::dedup::non_models(fs), merged_models(fs));
    lemma_names_of_merged(fs);
    assert(model_names(dd) =~= model_names(fs));
    assert forall|j: int| 0 <= j < model_names(dd).len() implies #[trigger] contents_for(
        dd,
        model_names(dd)[j],
    ) =~= seq![spec_join(contents_for(fs, model_names(fs)[j]), "\n"@)] by {
        lemma_model_names_distinct(fs);
        lemma_contents_concat_no_models(
            crate::dedup::non_models(fs),
            merged_models(fs),
            model_names(fs)[j],
        );
        lemma_contents_of_merged(fs, j);
    }
    assert forall|j: int| 0 <= j < model_names(dd).len() implies #[trigger] merged_models(dd)[j]
        == merged_models(fs)[j] by {
        assert(contents_for(dd, model_names(dd)[j]) == seq![
            spec_join(contents_for(fs, model_names(fs)[j]), "\n"@),
        ]);
        assert(spec_join(contents_for(dd, model_names(dd)[j]), "\n"@) == spec_join(
            contents_for(fs, model_names(fs)[j]),
            "\n"@,
        ));
    }
    assert(merged_models(dd) =~= merged_models(fs));
    assert(spec_dedup(dd) =~= dd);
}

proof fn lemma_non_models_concat(a: Seq<GFragment>, b: Seq<GFragment>)
    ensures
        crate::dedup::non_models(a + b) == crate::dedup::non_models(a) + crate::dedup::non_models(
            b,
        ),
    decreases b.len(),
{
    if b.len() == 0 {
        assert(a + b =~= a);
        assert(crate::dedup::non_models(a) + crate::dedup::non_models(b) =~= crate::dedup::non_models(
            a,
        ));
    } else {
        lemma_non_models_concat(a, b.drop_last());
        assert((a + b).drop_last() =~= a + b.drop_last());
        assert((a + b).last() == b.last());
        if !is_model_frag(b.last()) {
            assert(crate::dedup::non_models(a) + crate::dedup::non_models(b) =~= (
            crate::dedup::non_models(a) + crate::dedup::non_models(b.drop_last())).push(b.last()));
        }
    }
}

proof fn lemma_non_models_all_models(fs: Seq<GFragment>)
    requires
        forall|i: int| 0 <= i < fs.len() ==> is_model_frag(#[trigger] fs[i]),
    ensures
        crate::dedup::non_models(fs) == Seq::<GFragment>::empty(),
    decreases fs.len(),
{
    if fs.len() > 0 {
        lemma_non_models_all_models(fs.drop_last());
    }
}

proof fn lemma_non_models_idem(fs: Seq<GFragment>)
    ensures
        crate::dedup::non_models(crate::dedup::non_models(fs)) == crate::dedup::non_models(fs),
    decreases fs.len(),
{
    if fs.len() > 0 {
        lemma_non_models_idem(fs.drop_last());
        if !is_model_frag(fs.last()) {
            assert(crate::dedup::non_models(fs).drop_last() =~= crate::dedup::non_models(
                fs.drop_last(),
            ));
        }
    }
}

proof fn lemma_names_concat_no_models(a: Seq<GFragment>, b: Seq<GFragment>)
    requires
        forall|i: int| 0 <= i < a.len() ==> !is_model_frag(#[trigger] a[i]),
    ensures
        model_names(a + b) == model_names(b),
    decreases b.len(),
{
    if b.len() == 0 {
        assert(a + b =~= a);
        lemma_names_no_models(a);
    } else {
        lemma_names_concat_no_models(a, b.drop_last());
        assert((a + b).drop_last() =~= a + b.drop_last());
        assert((a + b).last() == b.last());
    }
}

proof fn lemma_names_no_models(a: Seq<GFragment>)
    requires
        forall|i: int| 0 <= i < a.len() ==> !is_model_frag(#[trigger] a[i]),
    ensures
        model_names(a) == Seq::<Seq<char>>::empty(),
    decreases a.len(),
{
    if a.len() > 0 {
        lemma_names_no_models(a.drop_last());
    }
}

/// The merged Models' distinct names are the original distinct names.
proof fn lemma_names_of_merged(fs: Seq<GFragment>)
    ensures
        model_names(merged_models(fs)) == model_names(fs),
{
    lemma_model_names_distinct(fs);
    lemma_names_of_merged_upto(fs, merged_models(fs).len() as int);
    assert(merged_models(fs).subrange(0, merged_models(fs).len() as int) =~= merged_models(fs));
    assert(model_names(fs).subrange(0, model_names(fs).len() as int) =~= model_names(fs));
}

proof fn lemma_names_of_merged_upto(fs: Seq<GFragment>, k: int)
    requires
        0 <= k <= merged_models(fs).len(),
        forall|i: int, j: int|
            0 <= i < j < model_names(fs).len() ==> model_names(fs)[i] != model_names(fs)[j],
    ensures
        model_names(merged_models(fs).subrange(0, k)) == model_names(fs).subrange(0, k),
    decreases k,
{
    if k == 0 {
        assert(merged_models(fs).subrange(0, 0) =~= Seq::<GFragment>::empty());
        assert(model_names(fs).subrange(0, 0) =~= Seq::<Seq<char>>::empty());
    } else {
        lemma_names_of_merged_upto(fs, k - 1);
        let m = merged_models(fs).subrange(0, k);
        assert(m.drop_last() =~= merged_models(fs).subrange(0, k - 1));
        assert(m.last() == merged_models(fs)[k - 1]);
        assert(crate::dedup::model_name(merged_models(fs)[k - 1]) == model_names(fs)[k - 1]);
        if model_names(fs).subrange(0, k - 1).contains(model_names(fs)[k - 1]) {
            let j = choose|j: int|
                0 <= j < k - 1 && #[trigger] model_names(fs).subrange(0, k - 1)[j] == model_names(
                    fs,
                )[k - 1];
            assert(model_names(fs)[j] == model_names(fs)[k - 1]);
            assert(false);
        }
        assert(model_names(m) =~= model_names(fs).subrange(0, k));
    }
}

proof fn lemma_contents_concat_no_models(a: Seq<GFragment>, b: Seq<GFragment>, n: Seq<char>)
    requires
        forall|i: int| 0 <= i < a.len() ==> !is_model_frag(#[trigger] a[i]),
    ensures
        contents_for(a + b, n) == contents_for(b, n),
    decreases b.len(),
{
    if b.len() == 0 {
        assert(a + b =~= a);
        lemma_contents_no_models(a, n);
    } else {
        lemma_contents_concat_no_models(a, b.drop_last(), n);
        assert((a + b).drop_last() =~= a + b.drop_last());
        assert((a + b).last() == b.last());
        if is_model_frag(b.last()) && crate::dedup::model_name(b.last()) == n {
            assert(contents_for(a + b, n) =~= contents_for(b, n));
        }
    }
}

proof fn lemma_contents_no_models(a: Seq<GFragment>, n: Seq<char>)
    requires
        forall|i: int| 0 <= i < a.len() ==> !is_model_frag(#[trigger] a[i]),
    ensures
        contents_for(a, n) == Seq::<Seq<char>>::empty(),
    decreases a.len(),
{
    if a.len() > 0 {
        lemma_contents_no_models(a.drop_last(), n);
    }
}

/// Among the merged Models, exactly the one of name `names[j]` contributes.
proof fn lemma_contents_of_merged(fs: Seq<GFragment>, j: int)
    requires
        0 <= j < model_names(fs).len(),
        forall|i: int, k: int|
            0 <= i < k < model_names(fs).len() ==> model_names(fs)[i] != model_names(fs)[k],
    ensures
        contents_for(merged_models(fs), model_names(fs)[j]) == seq![
            spec_join(contents_for(fs, model_names(fs)[j]), "\n"@),
        ],
{
    lemma_contents_of_merged_upto(fs, j, merged_models(fs).len() as int);
    assert(merged_models(fs).subrange(0, merged_models(fs).len() as int) =~= merged_models(fs));
}

proof fn lemma_contents_of_merged_upto(fs: Seq<GFragment>, j: int, k: int)
    requires
        0 <= j < model_names(fs).len(),
        0 <= k <= merged_models(fs).len(),
        forall|i: int, t: int|
            0 <= i < t < model_names(fs).len() ==> model_names(fs)[i] != model_names(fs)[t],
    ensures
        contents_for(merged_models(fs).subrange(0, k), model_names(fs)[j]) == (if j < k {
            seq![spec_join(contents_for(fs, model_names(fs)[j]), "\n"@)]
        } else {
            Seq::<Seq<char>>::empty()
        }),
    decreases k,
{
    if k == 0 {
        assert(merged_models(fs).subrange(0, 0) =~= Seq::<GFragment>::empty());
    } else {
        lemma_contents_of_merged_upto(fs, j, k - 1);
        let m = merged_models(fs).subrange(0, k);
        assert(m.drop_last() =~= merged_models(fs).subrange(0, k - 1));
        assert(m.last() == merged_models(fs)[k - 1]);
        if j == k - 1 {
            assert(contents_for(m, model_names(fs)[j]) =~= seq![
                spec_join(contents_for(fs, model_names(fs)[j]), "\n"@),
            ]);
        } else {
            assert(model_names(fs)[k - 1] != model_names(fs)[j]);
        }
    }
}

} // verus!
