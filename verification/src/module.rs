//! The Module Tree Builder: groups fragments into aggregator modules
//! (resources, functions, models, consts, common, nested namespaces) and,
//! at the outermost level only, one root entry module re-exporting them all.

use crate::dedup::{
    contents_for, is_model_frag, merged_models, model_names, non_models, spec_dedup,
};
use crate::fragment::{frags_model, Fragment, GFragment};
use crate::outside::spec_join;
use vstd::prelude::*;

verus! {

/// One output file-or-directory unit.
#[derive(Debug, PartialEq)]
pub enum Module {
    /// The root file's content.
    EntryPoint { content: String },
    /// A named unit; with children it is materialized as a directory plus a
    /// sibling file of the same name holding `content`.
    Lib { name: String, content: String, modules: Vec<Module> },
}

/// The mathematical shadow of `Module`.
pub ghost enum GModule {
    EntryPoint { content: Seq<char> },
    Lib { name: Seq<char>, content: Seq<char>, modules: Seq<GModule> },
}

/// The mathematical value a module stands for.
pub open spec fn module_model(m: Module) -> GModule
    decreases m,
{
    match m {
        Module::EntryPoint { content } => GModule::EntryPoint { content: content@ },
        Module::Lib { name, content, modules } => GModule::Lib {
            name: name@,
            content: content@,
            modules: mods_model(modules@),
        },
    }
}

/// The mathematical values of a module sequence, elementwise.
pub open spec fn mods_model(s: Seq<Module>) -> Seq<GModule>
    decreases s,
{
    if s.len() == 0 {
        Seq::empty()
    } else {
        mods_model(s.drop_last()).push(module_model(s.last()))
    }
}

pub proof fn lemma_mods_model_len(s: Seq<Module>)
    ensures
        mods_model(s).len() == s.len(),
    decreases s.len(),
{
    if s.len() > 0 {
        lemma_mods_model_len(s.drop_last());
    }
}

pub proof fn lemma_mods_model_push(s: Seq<Module>, m: Module)
    ensures
        mods_model(s.push(m)) == mods_model(s).push(module_model(m)),
{
    assert(s.push(m).drop_last() =~= s);
    assert(s.push(m).last() == m);
}

pub proof fn lemma_mods_model_index(s: Seq<Module>, i: int)
    requires
        0 <= i < s.len(),
    ensures
        mods_model(s).len() == s.len(),
        mods_model(s)[i] == module_model(s[i]),
    decreases s.len(),
{
    lemma_mods_model_len(s);
    if i < s.len() - 1 {
        lemma_mods_model_index(s.drop_last(), i);
    }
}

/// Picks from each fragment whatever the selector yields, in order.
pub open spec fn filter_map<T>(fs: Seq<GFragment>, sel: spec_fn(GFragment) -> Option<T>) -> Seq<T>
    decreases fs.len(),
{
    if fs.len() == 0 {
        Seq::empty()
    } else {
        let rest = filter_map(fs.drop_last(), sel);
        match sel(fs.last()) {
            Some(x) => rest.push(x),
            None => rest,
        }
    }
}

pub proof fn lemma_filter_map_concat<T>(
    a: Seq<GFragment>,
    b: Seq<GFragment>,
    sel: spec_fn(GFragment) -> Option<T>,
)
    ensures
        filter_map(a + b, sel) == filter_map(a, sel) + filter_map(b, sel),
    decreases b.len(),
{
    if b.len() == 0 {
        assert(a + b =~= a);
        assert(filter_map(a, sel) + filter_map(b, sel) =~= filter_map(a, sel));
    } else {
        lemma_filter_map_concat(a, b.drop_last(), sel);
        assert((a + b).drop_last() =~= a + b.drop_last());
        assert((a + b).last() == b.last());
        match sel(b.last()) {
            Some(x) => {
                assert(filter_map(a, sel) + filter_map(b, sel) =~= (filter_map(a, sel)
                    + filter_map(b.drop_last(), sel)).push(x));
            },
            None => {},
        }
    }
}

/// A selector that yields nothing on any fragment of the list picks nothing.
pub proof fn lemma_filter_map_none<T>(fs: Seq<GFragment>, sel: spec_fn(GFragment) -> Option<T>)
    requires
        forall|i: int| 0 <= i < fs.len() ==> sel(#[trigger] fs[i]) is None,
    ensures
        filter_map(fs, sel) == Seq::<T>::empty(),
    decreases fs.len(),
{
    if fs.len() > 0 {
        lemma_filter_map_none(fs.drop_last(), sel);
    }
}

/// A selector blind to Model fragments picks the same through the Model
/// filter as from the original list.
pub proof fn lemma_filter_map_non_models<T>(
    fs: Seq<GFragment>,
    sel: spec_fn(GFragment) -> Option<T>,
)
    requires
        forall|f: GFragment| is_model_frag(f) ==> #[trigger] sel(f) is None,
    ensures
        filter_map(non_models(fs), sel) == filter_map(fs, sel),
    decreases fs.len(),
{
    if fs.len() > 0 {
        lemma_filter_map_non_models(fs.drop_last(), sel);
        if !is_model_frag(fs.last()) {
            assert(non_models(fs).drop_last() =~= non_models(fs.drop_last()));
        }
    }
}

/// Every merged Model is a Model fragment.
pub proof fn lemma_merged_all_models(fs: Seq<GFragment>)
    ensures
        forall|i: int|
            0 <= i < merged_models(fs).len() ==> is_model_frag(#[trigger] merged_models(fs)[i]),
{
}

/// A selector blind to Model fragments picks the same from the deduplicated
/// list as from the original one.
pub proof fn lemma_filter_map_dedup<T>(fs: Seq<GFragment>, sel: spec_fn(GFragment) -> Option<T>)
    requires
        forall|f: GFragment| is_model_frag(f) ==> #[trigger] sel(f) is None,
    ensures
        filter_map(spec_dedup(fs), sel) == filter_map(fs, sel),
{
    lemma_filter_map_concat(non_models(fs), merged_models(fs), sel);
    lemma_merged_all_models(fs);
    lemma_filter_map_none(merged_models(fs), sel);
    lemma_filter_map_non_models(fs, sel);
    assert(filter_map(spec_dedup(fs), sel) =~= filter_map(fs, sel));
}

/// No fragment among the non-Models is a Model.
pub proof fn lemma_non_models_no_model(fs: Seq<GFragment>)
    ensures
        forall|i: int|
            0 <= i < non_models(fs).len() ==> !is_model_frag(#[trigger] non_models(fs)[i]),
    decreases fs.len(),
{
    if fs.len() > 0 {
        lemma_non_models_no_model(fs.drop_last());
        if !is_model_frag(fs.last()) {
            assert(forall|i: int|
                0 <= i < non_models(fs).len() - 1 ==> non_models(fs)[i] == non_models(
                    fs.drop_last(),
                )[i]);
        }
    }
}

/// The Model fragments of the deduplicated list are exactly the merged ones.
pub proof fn lemma_filter_map_dedup_models<T>(
    fs: Seq<GFragment>,
    sel: spec_fn(GFragment) -> Option<T>,
)
    requires
        forall|f: GFragment| !is_model_frag(f) ==> #[trigger] sel(f) is None,
    ensures
        filter_map(spec_dedup(fs), sel) == filter_map(merged_models(fs), sel),
{
    lemma_filter_map_concat(non_models(fs), merged_models(fs), sel);
    lemma_non_models_no_model(fs);
    lemma_filter_map_none(non_models(fs), sel);
    assert(filter_map(spec_dedup(fs), sel) =~= filter_map(merged_models(fs), sel));
}

/// Which plain-text pieces a pass over one level collects.
#[derive(Clone, Copy)]
pub enum TextKind {
    UseText,
    ConstText,
    CommonText,
    /// The root module's tail: the entry routine's content, and a bare
    /// namespace-declaration line for each body-less namespace.
    EntryText,
}

pub open spec fn text_sel(kind: TextKind) -> spec_fn(GFragment) -> Option<Seq<char>> {
    match kind {
        TextKind::UseText => |f: GFragment|
            match f {
                GFragment::Use { content } => Some(content),
                _ => None,
            },
        TextKind::ConstText => |f: GFragment|
            match f {
                GFragment::Const { content } => Some(content),
                _ => None,
            },
        TextKind::CommonText => |f: GFragment|
            match f {
                GFragment::Common { content } => Some(content),
                _ => None,
            },
        TextKind::EntryText => |f: GFragment|
            match f {
                GFragment::EntryPoint { content } => Some(content),
                GFragment::Mod { name, fragments: None } => Some("mod "@ + name + ";"@),
                _ => None,
            },
    }
}

/// A leaf module for one named fragment: the shared import block, then the
/// fragment's content.
pub open spec fn leaf_mod(name: Seq<char>, lib_use: Seq<char>, content: Seq<char>) -> GModule {
    GModule::Lib { name: name, content: lib_use + content, modules: Seq::empty() }
}

/// Which kind of named fragment becomes one leaf module each.
#[derive(Clone, Copy)]
pub enum LeafKind {
    Resource,
    Function,
    ModelLeaf,
}

pub open spec fn leaf_sel(kind: LeafKind, lib_use: Seq<char>) -> spec_fn(GFragment) -> Option<
    GModule,
> {
    match kind {
        LeafKind::Resource => |f: GFragment|
            match f {
                GFragment::ApiResource { name, content } => Some(leaf_mod(name, lib_use, content)),
                _ => None,
            },
        LeafKind::Function => |f: GFragment|
            match f {
                GFragment::Function { name, content } => Some(leaf_mod(name, lib_use, content)),
                _ => None,
            },
        LeafKind::ModelLeaf => |f: GFragment|
            match f {
                GFragment::Model { name, content } => Some(leaf_mod(name, lib_use, content)),
                _ => None,
            },
    }
}

/// The combined import block of one namespace level.
pub open spec fn spec_use_text(fs: Seq<GFragment>) -> Seq<char> {
    spec_join(filter_map(fs, text_sel(TextKind::UseText)), "\n"@)
}

/// The import block every content-bearing module is prefixed with: the
/// level's own imports plus everything visible in the enclosing namespace.
pub open spec fn spec_lib_use(fs: Seq<GFragment>) -> Seq<char> {
    spec_use_text(fs) + "\nuse crate::*;"@
}

/// The declare-and-re-export line an aggregator writes for one child.
pub open spec fn mod_line(name: Seq<char>) -> Seq<char> {
    "pub mod "@ + name + "; pub use self::"@ + name + "::*;"@
}

/// One line per module: the declare-and-re-export line of a named unit, an
/// empty piece for an entry module.
pub open spec fn mod_piece(m: GModule) -> Seq<char> {
    match m {
        GModule::Lib { name, .. } => mod_line(name),
        GModule::EntryPoint { .. } => Seq::empty(),
    }
}

pub open spec fn mod_pieces(ms: Seq<GModule>) -> Seq<Seq<char>>
    decreases ms.len(),
{
    if ms.len() == 0 {
        Seq::empty()
    } else {
        mod_pieces(ms.drop_last()).push(mod_piece(ms.last()))
    }
}

pub proof fn lemma_mod_pieces_index(ms: Seq<GModule>, i: int)
    requires
        0 <= i < ms.len(),
    ensures
        mod_pieces(ms).len() == ms.len(),
        mod_pieces(ms)[i] == mod_piece(ms[i]),
    decreases ms.len(),
{
    lemma_mod_pieces_len(ms);
    if i < ms.len() - 1 {
        lemma_mod_pieces_index(ms.drop_last(), i);
    }
}

pub proof fn lemma_mod_pieces_len(ms: Seq<GModule>)
    ensures
        mod_pieces(ms).len() == ms.len(),
    decreases ms.len(),
{
    if ms.len() > 0 {
        lemma_mod_pieces_len(ms.drop_last());
    }
}

/// The "declare submodule and re-export its contents" block for a module
/// list, one line per module.
pub open spec fn spec_mod_text(ms: Seq<GModule>) -> Seq<char> {
    spec_join(mod_pieces(ms), "\n"@)
}

/// The merged Model leaf modules of one level, in first-seen name order.
pub open spec fn model_mods(fs: Seq<GFragment>, lib_use: Seq<char>) -> Seq<GModule> {
    filter_map(merged_models(fs), leaf_sel(LeafKind::ModelLeaf, lib_use))
}

/// The modules the nested namespaces of the level produce, in encounter
/// order: one named unit per namespace with an inline body, built by
/// recursing one level deeper.
pub open spec fn nested_mods(fs: Seq<GFragment>) -> Seq<GModule>
    decreases fs, 0int,
{
    if fs.len() == 0 {
        Seq::empty()
    } else {
        let rest = nested_mods(fs.drop_last());
        match fs.last() {
            GFragment::Mod { name, fragments: Some(children) } => rest.push(
                GModule::Lib {
                    name: name,
                    content: spec_mod_text(spec_build(children, false)),
                    modules: spec_build(children, false),
                },
            ),
            _ => rest,
        }
    }
}

/// What the Module Tree Builder yields on one namespace level: the four
/// fixed aggregators, a common module when there is anything for it, the
/// nested namespace modules, and — only at the outermost level — the entry
/// module combining the import block, the re-export lines and the entry
/// routine's content.
pub open spec fn spec_build(fs: Seq<GFragment>, top: bool) -> Seq<GModule>
    decreases fs, 1int,
{
    let lib_use = spec_lib_use(fs);
    let resources = filter_map(fs, leaf_sel(LeafKind::Resource, lib_use));
    let functions = filter_map(fs, leaf_sel(LeafKind::Function, lib_use));
    let models = model_mods(fs, lib_use);
    let common_text = spec_join(filter_map(fs, text_sel(TextKind::CommonText)), "\n"@);
    let base = seq![
        GModule::Lib {
            name: "resources"@,
            content: spec_mod_text(resources),
            modules: resources,
        },
        GModule::Lib {
            name: "functions"@,
            content: spec_mod_text(functions),
            modules: functions,
        },
        GModule::Lib { name: "models"@, content: spec_mod_text(models), modules: models },
        GModule::Lib {
            name: "consts"@,
            content: lib_use + spec_join(filter_map(fs, text_sel(TextKind::ConstText)), "\n"@),
            modules: Seq::empty(),
        },
    ];
    let base = if common_text.len() > 0 {
        base.push(
            GModule::Lib {
                name: "common"@,
                content: lib_use + common_text,
                modules: Seq::empty(),
            },
        )
    } else {
        base
    };
    let base = base + nested_mods(fs);
    if top {
        base.push(
            GModule::EntryPoint {
                content: spec_use_text(fs) + spec_mod_text(base) + spec_join(
                    filter_map(fs, text_sel(TextKind::EntryText)),
                    "\n"@,
                ),
            },
        )
    } else {
        base
    }
}

/// How deeply namespaces nest below a fragment.
pub open spec fn gfrag_depth(f: GFragment) -> nat
    decreases f,
{
    match f {
        GFragment::Mod { fragments: Some(ch), .. } => 1 + glist_depth(ch),
        _ => 0,
    }
}

/// The deepest nesting in a fragment list.
pub open spec fn glist_depth(fs: Seq<GFragment>) -> nat
    decreases fs,
{
    if fs.len() == 0 {
        0
    } else if gfrag_depth(fs.last()) > glist_depth(fs.drop_last()) {
        gfrag_depth(fs.last())
    } else {
        glist_depth(fs.drop_last())
    }
}

pub proof fn lemma_depth_member(fs: Seq<GFragment>, i: int)
    requires
        0 <= i < fs.len(),
    ensures
        gfrag_depth(fs[i]) <= glist_depth(fs),
    decreases fs.len(),
{
    if i < fs.len() - 1 {
        lemma_depth_member(fs.drop_last(), i);
    }
}

/// Every non-Model fragment of a list occurs in the list.
pub proof fn lemma_non_models_member(fs: Seq<GFragment>, i: int)
    requires
        0 <= i < non_models(fs).len(),
    ensures
        exists|j: int| 0 <= j < fs.len() && fs[j] == non_models(fs)[i],
    decreases fs.len(),
{
    if fs.len() > 0 {
        if is_model_frag(fs.last()) {
            lemma_non_models_member(fs.drop_last(), i);
            let j = choose|j: int|
                0 <= j < fs.drop_last().len() && fs.drop_last()[j] == non_models(fs.drop_last())[i];
            assert(fs[j] == non_models(fs)[i]);
        } else {
            if i == non_models(fs).len() - 1 {
                assert(fs[fs.len() - 1] == non_models(fs)[i]);
            } else {
                lemma_non_models_member(fs.drop_last(), i);
                let j = choose|j: int|
                    0 <= j < fs.drop_last().len() && fs.drop_last()[j] == non_models(
                        fs.drop_last(),
                    )[i];
                assert(fs[j] == non_models(fs)[i]);
            }
        }
    }
}

/// A namespace fragment that survives deduplication nests strictly less
/// deeply than the whole original list.
pub proof fn lemma_dedup_elem_depth(fs: Seq<GFragment>, i: int)
    requires
        0 <= i < spec_dedup(fs).len(),
        !is_model_frag(spec_dedup(fs)[i]),
    ensures
        gfrag_depth(spec_dedup(fs)[i]) <= glist_depth(fs),
{
    lemma_merged_all_models(fs);
    if i >= non_models(fs).len() {
        assert(spec_dedup(fs)[i] == merged_models(fs)[i - non_models(fs).len()]);
        assert(false);
    }
    assert(spec_dedup(fs)[i] == non_models(fs)[i]);
    lemma_non_models_member(fs, i);
    let j = choose|j: int| 0 <= j < fs.len() && fs[j] == non_models(fs)[i];
    lemma_depth_member(fs, j);
}

pub proof fn lemma_nested_concat(a: Seq<GFragment>, b: Seq<GFragment>)
    ensures
        nested_mods(a + b) == nested_mods(a) + nested_mods(b),
    decreases b.len(),
{
    if b.len() == 0 {
        assert(a + b =~= a);
        assert(nested_mods(a) + nested_mods(b) =~= nested_mods(a));
    } else {
        lemma_nested_concat(a, b.drop_last());
        assert((a + b).drop_last() =~= a + b.drop_last());
        assert((a + b).last() == b.last());
        match b.last() {
            GFragment::Mod { name, fragments: Some(children) } => {
                assert(nested_mods(a) + nested_mods(b) =~= (nested_mods(a) + nested_mods(
                    b.drop_last(),
                )).push(
                    GModule::Lib {
                        name: name,
                        content: spec_mod_text(spec_build(children, false)),
                        modules: spec_build(children, false),
                    },
                ));
            },
            _ => {},
        }
    }
}

pub proof fn lemma_nested_none(fs: Seq<GFragment>)
    requires
        forall|i: int| 0 <= i < fs.len() ==> is_model_frag(#[trigger] fs[i]),
    ensures
        nested_mods(fs) == Seq::<GModule>::empty(),
    decreases fs.len(),
{
    if fs.len() > 0 {
        lemma_nested_none(fs.drop_last());
    }
}

pub proof fn lemma_nested_non_models(fs: Seq<GFragment>)
    ensures
        nested_mods(non_models(fs)) == nested_mods(fs),
    decreases fs.len(),
{
    if fs.len() > 0 {
        lemma_nested_non_models(fs.drop_last());
        if !is_model_frag(fs.last()) {
            assert(non_models(fs).drop_last() =~= non_models(fs.drop_last()));
        }
    }
}

/// Deduplication leaves the namespace modules untouched.
pub proof fn lemma_nested_dedup(fs: Seq<GFragment>)
    ensures
        nested_mods(spec_dedup(fs)) == nested_mods(fs),
{
    lemma_nested_concat(non_models(fs), merged_models(fs));
    lemma_merged_all_models(fs);
    lemma_nested_none(merged_models(fs));
    lemma_nested_non_models(fs);
    assert(nested_mods(spec_dedup(fs)) =~= nested_mods(fs));
}

/// The declare-and-re-export block for a module list, one line per module.
pub fn mods_text(modules: &Vec<Module>) -> (r: String)
    ensures
        r@ == spec_mod_text(mods_model(modules@)),
{
    let ghost gms = mods_model(modules@);
    let mut lines: Vec<String> = Vec::new();
    let mut i: usize = 0;
    proof {
        lemma_mods_model_len(modules@);
        assert(lines.deep_view() =~= mod_pieces(gms.subrange(0, 0)));
    }
    while i < modules.len()
        invariant
            i <= modules@.len(),
            gms == mods_model(modules@),
            gms.len() == modules@.len(),
            lines.deep_view() == mod_pieces(gms.subrange(0, i as int)),
        decreases modules@.len() - i,
    {
        let line: String = match &modules[i] {
            Module::Lib { name, .. } => {
                let mut t = "pub mod ".to_owned();
                t.append(name.as_str());
                t.append("; pub use self::");
                t.append(name.as_str());
                t.append("::*;");
                t
            },
            Module::EntryPoint { .. } => String::new(),
        };
        proof {
            lemma_mods_model_index(modules@, i as int);
            assert(line@ =~= mod_piece(gms[i as int]));
            assert(gms.subrange(0, i + 1).drop_last() =~= gms.subrange(0, i as int));
        }
        let ghost gl = line@;
        let ghost prev = lines.deep_view();
        lines.push(line);
        i = i + 1;
        proof {
            assert(lines.deep_view() =~= prev.push(gl));
            assert(lines.deep_view() =~= mod_pieces(gms.subrange(0, i as int)));
        }
    }
    proof {
        assert(gms.subrange(0, modules@.len() as int) =~= gms);
    }
    crate::outside::join_with(&lines, "\n")
}

/// One pass over a level, collecting the plain-text pieces of one kind.
fn collect_texts(v: &Vec<Fragment>, kind: TextKind) -> (r: Vec<String>)
    ensures
        r.deep_view() == filter_map(crate::fragment::frags_model(v@), text_sel(kind)),
{
    let ghost gv = crate::fragment::frags_model(v@);
    let ghost sel = text_sel(kind);
    let mut out: Vec<String> = Vec::new();
    let mut i: usize = 0;
    proof {
        crate::dedup::lemma_frags_model_len(v@);
        assert(out.deep_view() =~= filter_map(gv.subrange(0, 0), sel));
    }
    while i < v.len()
        invariant
            i <= v@.len(),
            gv == crate::fragment::frags_model(v@),
            sel == text_sel(kind),
            gv.len() == v@.len(),
            out.deep_view() == filter_map(gv.subrange(0, i as int), sel),
        decreases v@.len() - i,
    {
        let piece: Option<String> = match kind {
            TextKind::UseText => match &v[i] {
                Fragment::Use { content } => Some(content.clone()),
                _ => None,
            },
            TextKind::ConstText => match &v[i] {
                Fragment::Const { content } => Some(content.clone()),
                _ => None,
            },
            TextKind::CommonText => match &v[i] {
                Fragment::Common { content } => Some(content.clone()),
                _ => None,
            },
            TextKind::EntryText => match &v[i] {
                Fragment::EntryPoint { content } => Some(content.clone()),
                Fragment::Mod { name, fragments: None } => {
                    let mut t = "mod ".to_owned();
                    t.append(name.as_str());
                    t.append(";");
                    Some(t)
                },
                _ => None,
            },
        };
        proof {
            crate::dedup::lemma_frags_model_index(v@, i as int);
            assert(gv.subrange(0, i + 1).drop_last() =~= gv.subrange(0, i as int));
        }
        match piece {
            Some(p) => {
                proof {
                    assert(sel(gv[i as int]) == Some(p@));
                }
                let ghost gp = p@;
                let ghost prev = out.deep_view();
                out.push(p);
                proof {
                    assert(out.deep_view() =~= prev.push(gp));
                }
            },
            None => {
                proof {
                    assert(sel(gv[i as int]) is None);
                }
            },
        }
        i = i + 1;
        proof {
            assert(out.deep_view() =~= filter_map(gv.subrange(0, i as int), sel));
        }
    }
    proof {
        assert(gv.subrange(0, v@.len() as int) =~= gv);
    }
    out
}

/// One pass over a level, building a leaf module per named fragment of one
/// kind: the shared import block, then the fragment's content.
fn leaf_mods(v: &Vec<Fragment>, kind: LeafKind, lib_use: &String) -> (r: Vec<Module>)
    ensures
        mods_model(r@) == filter_map(crate::fragment::frags_model(v@), leaf_sel(kind, lib_use@)),
{
    let ghost gv = crate::fragment::frags_model(v@);
    let ghost sel = leaf_sel(kind, lib_use@);
    let mut out: Vec<Module> = Vec::new();
    let mut i: usize = 0;
    proof {
        crate::dedup::lemma_frags_model_len(v@);
        assert(mods_model(out@) =~= filter_map(gv.subrange(0, 0), sel));
    }
    while i < v.len()
        invariant
            i <= v@.len(),
            gv == crate::fragment::frags_model(v@),
            sel == leaf_sel(kind, lib_use@),
            gv.len() == v@.len(),
            mods_model(out@) == filter_map(gv.subrange(0, i as int), sel),
        decreases v@.len() - i,
    {
        let hit: Option<(&String, &String)> = match kind {
            LeafKind::Resource => match &v[i] {
                Fragment::ApiResource { name, content } => Some((name, content)),
                _ => None,
            },
            LeafKind::Function => match &v[i] {
                Fragment::Function { name, content } => Some((name, content)),
                _ => None,
            },
            LeafKind::ModelLeaf => match &v[i] {
                Fragment::Model { name, content } => Some((name, content)),
                _ => None,
            },
        };
        proof {
            crate::dedup::lemma_frags_model_index(v@, i as int);
            assert(gv.subrange(0, i + 1).drop_last() =~= gv.subrange(0, i as int));
        }
        match hit {
            Some((name, content)) => {
                let mut c = lib_use.clone();
                c.append(content.as_str());
                let m = Module::Lib { name: name.clone(), content: c, modules: Vec::new() };
                let ghost gm = module_model(m);
                proof {
                    assert(gm == leaf_mod(name@, lib_use@, content@));
                    assert(sel(gv[i as int]) == Some(gm));
                }
                let ghost prev = out@;
                out.push(m);
                proof {
                    assert(out@.drop_last() =~= prev);
                    assert(mods_model(out@) =~= filter_map(gv.subrange(0, i + 1), sel));
                }
            },
            None => {
                proof {
                    assert(sel(gv[i as int]) is None);
                    assert(mods_model(out@) =~= filter_map(gv.subrange(0, i + 1), sel));
                }
            },
        }
        i = i + 1;
    }
    proof {
        assert(gv.subrange(0, v@.len() as int) =~= gv);
    }
    out
}

/// Builds one namespace level: runs the Deduplicator, groups the fragments
/// into the aggregators and the nested namespace modules, and — only at the
/// outermost level — appends the entry module that declares and re-exports
/// everything while retaining the entry routine's content.
#[verifier::loop_isolation(false)]
pub fn build_modules(fragments: Vec<Fragment>, top: bool) -> (r: Vec<Module>)
    ensures
        mods_model(r@) == spec_build(frags_model(fragments@), top),
    decreases glist_depth(frags_model(fragments@)),
{
    let ghost gfs = frags_model(fragments@);
    let deduped = crate::dedup::dedup_fragments(fragments);
    let ghost gd = frags_model(deduped@);

    let uses = collect_texts(&deduped, TextKind::UseText);
    proof {
        assert forall|f: GFragment| is_model_frag(f) implies (text_sel(TextKind::UseText))(
            f,
        ) is None by {}
        lemma_filter_map_dedup(gfs, text_sel(TextKind::UseText));
    }
    let use_text = crate::outside::join_with(&uses, "\n");
    let mut lib_use = use_text.clone();
    lib_use.append("\nuse crate::*;");
    proof {
        assert(lib_use@ == spec_lib_use(gfs));
    }

    let resources_children = leaf_mods(&deduped, LeafKind::Resource, &lib_use);
    proof {
        assert forall|f: GFragment| is_model_frag(f) implies (leaf_sel(
            LeafKind::Resource,
            lib_use@,
        ))(f) is None by {}
        lemma_filter_map_dedup(gfs, leaf_sel(LeafKind::Resource, lib_use@));
    }
    let rtext = mods_text(&resources_children);
    let resources = Module::Lib {
        name: "resources".to_owned(),
        content: rtext,
        modules: resources_children,
    };

    let functions_children = leaf_mods(&deduped, LeafKind::Function, &lib_use);
    proof {
        assert forall|f: GFragment| is_model_frag(f) implies (leaf_sel(
            LeafKind::Function,
            lib_use@,
        ))(f) is None by {}
        lemma_filter_map_dedup(gfs, leaf_sel(LeafKind::Function, lib_use@));
    }
    let ftext = mods_text(&functions_children);
    let functions = Module::Lib {
        name: "functions".to_owned(),
        content: ftext,
        modules: functions_children,
    };

    let models_children = leaf_mods(&deduped, LeafKind::ModelLeaf, &lib_use);
    proof {
        assert forall|f: GFragment| !is_model_frag(f) implies (leaf_sel(
            LeafKind::ModelLeaf,
            lib_use@,
        ))(f) is None by {}
        lemma_filter_map_dedup_models(gfs, leaf_sel(LeafKind::ModelLeaf, lib_use@));
        assert(mods_model(models_children@) == model_mods(gfs, lib_use@));
    }
    let mtext = mods_text(&models_children);
    let models = Module::Lib {
        name: "models".to_owned(),
        content: mtext,
        modules: models_children,
    };

    let const_parts = collect_texts(&deduped, TextKind::ConstText);
    proof {
        assert forall|f: GFragment| is_model_frag(f) implies (text_sel(TextKind::ConstText))(
            f,
        ) is None by {}
        lemma_filter_map_dedup(gfs, text_sel(TextKind::ConstText));
    }
    let const_join = crate::outside::join_with(&const_parts, "\n");
    let mut ccontent = lib_use.clone();
    ccontent.append(const_join.as_str());
    let consts = Module::Lib { name: "consts".to_owned(), content: ccontent, modules: Vec::new() };

    let common_parts = collect_texts(&deduped, TextKind::CommonText);
    proof {
        assert forall|f: GFragment| is_model_frag(f) implies (text_sel(TextKind::CommonText))(
            f,
        ) is None by {}
        lemma_filter_map_dedup(gfs, text_sel(TextKind::CommonText));
    }
    let common_join = crate::outside::join_with(&common_parts, "\n");

    let entry_parts = collect_texts(&deduped, TextKind::EntryText);
    proof {
        assert forall|f: GFragment| is_model_frag(f) implies (text_sel(TextKind::EntryText))(
            f,
        ) is None by {}
        lemma_filter_map_dedup(gfs, text_sel(TextKind::EntryText));
    }

    let mut res: Vec<Module> = Vec::new();
    let ghost g_resources = module_model(resources);
    let ghost p0 = res@;
    res.push(resources);
    proof {
        lemma_mods_model_push(p0, res@.last());
        assert(module_model(res@.last()) == g_resources);
    }
    let ghost g_functions = module_model(functions);
    let ghost p1 = res@;
    res.push(functions);
    proof {
        lemma_mods_model_push(p1, res@.last());
        assert(module_model(res@.last()) == g_functions);
    }
    let ghost g_models = module_model(models);
    let ghost p2 = res@;
    res.push(models);
    proof {
        lemma_mods_model_push(p2, res@.last());
        assert(module_model(res@.last()) == g_models);
    }
    let ghost g_consts = module_model(consts);
    let ghost p3 = res@;
    res.push(consts);
    proof {
        lemma_mods_model_push(p3, res@.last());
        assert(module_model(res@.last()) == g_consts);
    }

    if !common_join.as_str().is_empty() {
        let mut cm = lib_use.clone();
        cm.append(common_join.as_str());
        let common = Module::Lib {
            name: "common".to_owned(),
            content: cm,
            modules: Vec::new(),
        };
        let ghost g_common = module_model(common);
        let ghost p4 = res@;
        res.push(common);
        proof {
            lemma_mods_model_push(p4, res@.last());
            assert(module_model(res@.last()) == g_common);
        }
    }

    let ghost gpre = mods_model(res@);
    proof {
        let lu = spec_lib_use(gfs);
        let g_res = filter_map(gfs, leaf_sel(LeafKind::Resource, lu));
        let g_fun = filter_map(gfs, leaf_sel(LeafKind::Function, lu));
        let g_mod = model_mods(gfs, lu);
        let common_text = spec_join(filter_map(gfs, text_sel(TextKind::CommonText)), "\n"@);
        let base4 = seq![
            GModule::Lib { name: "resources"@, content: spec_mod_text(g_res), modules: g_res },
            GModule::Lib { name: "functions"@, content: spec_mod_text(g_fun), modules: g_fun },
            GModule::Lib { name: "models"@, content: spec_mod_text(g_mod), modules: g_mod },
            GModule::Lib {
                name: "consts"@,
                content: lu + spec_join(filter_map(gfs, text_sel(TextKind::ConstText)), "\n"@),
                modules: Seq::empty(),
            },
        ];
        if common_text.len() > 0 {
            assert(gpre =~= base4.push(
                GModule::Lib {
                    name: "common"@,
                    content: lu + common_text,
                    modules: Seq::empty(),
                },
            ));
        } else {
            assert(gpre =~= base4);
        }
    }

    let mut rest = deduped;
    let ghost dseq = rest@;
    let ghost k: int = 0;
    proof {
        crate::dedup::lemma_frags_model_len(dseq);
        assert(gd.subrange(0, 0) =~= Seq::<GFragment>::empty());
        assert(mods_model(res@) =~= gpre + nested_mods(gd.subrange(0, 0)));
    }
    while rest.len() > 0
        invariant
            0 <= k <= dseq.len(),
            rest@ == dseq.subrange(k, dseq.len() as int),
            gd == frags_model(dseq),
            gd.len() == dseq.len(),
            gd == crate::dedup::spec_dedup(gfs),
            mods_model(res@) == gpre + nested_mods(gd.subrange(0, k)),
        decreases rest@.len(),
    {
        let f = rest.remove(0);
        proof {
            assert(f == dseq[k]);
            assert(rest@ =~= dseq.subrange(k + 1, dseq.len() as int));
            crate::dedup::lemma_frags_model_index(dseq, k);
            assert(gd.subrange(0, k + 1).drop_last() =~= gd.subrange(0, k));
        }
        let is_nested = match &f {
            Fragment::Mod { fragments: Some(_), .. } => true,
            _ => false,
        };
        if is_nested {
            match f {
                Fragment::Mod { name, fragments: Some(ch) } => {
                    proof {
                        assert(gd[k] == GFragment::Mod {
                            name: name@,
                            fragments: Some(frags_model(ch@)),
                        });
                        assert(!is_model_frag(gd[k]));
                        lemma_dedup_elem_depth(gfs, k);
                        assert(glist_depth(frags_model(ch@)) < glist_depth(gfs));
                    }
                    let inner = build_modules(ch, false);
                    let itext = mods_text(&inner);
                    let m = Module::Lib { name, content: itext, modules: inner };
                    let ghost gm = module_model(m);
                    let ghost prev = res@;
                    res.push(m);
                    proof {
                        lemma_mods_model_push(prev, res@.last());
                        assert(module_model(res@.last()) == gm);
                        assert(mods_model(res@) =~= gpre + nested_mods(gd.subrange(0, k + 1)));
                    }
                },
                _ => {
                    proof {
                        assert(false);
                    }
                },
            }
        } else {
            proof {
                assert(!(gd[k] matches GFragment::Mod { fragments: Some(_), .. }));
                assert(nested_mods(gd.subrange(0, k + 1)) =~= nested_mods(gd.subrange(0, k)));
            }
        }
        proof {
            k = k + 1;
        }
    }
    proof {
        assert(gd.subrange(0, dseq.len() as int) =~= gd);
        lemma_nested_dedup(gfs);
        assert(mods_model(res@) == gpre + nested_mods(gfs));
    }

    if top {
        let rl = mods_text(&res);
        let mut ec = use_text;
        ec.append(rl.as_str());
        let etail = crate::outside::join_with(&entry_parts, "\n");
        ec.append(etail.as_str());
        let ghost base_g = mods_model(res@);
        let m = Module::EntryPoint { content: ec };
        let ghost gm = module_model(m);
        let ghost prev = res@;
        proof {
            assert(gm == GModule::EntryPoint {
                content: spec_use_text(gfs) + spec_mod_text(base_g) + spec_join(
                    filter_map(gfs, text_sel(TextKind::EntryText)),
                    "\n"@,
                ),
            });
        }
        res.push(m);
        proof {
            lemma_mods_model_push(prev, res@.last());
            assert(module_model(res@.last()) == gm);
            assert(mods_model(res@) =~= base_g.push(gm));
        }
    }
    proof {
        assert(mods_model(res@) =~= spec_build(gfs, top));
    }
    res
}

} // verus!
