//! The top of the pipeline: parse a declaration sequence into a module
//! tree, and plan the files and directories that persist it.

use crate::decl::{decls_wf, Decl};
use crate::fragment::{classify, spec_classify_list};
use crate::module::{build_modules, mods_model, module_model, spec_build, GModule, Module};
use vstd::prelude::*;

verus! {

/// One filesystem step of the write plan, its path given as segments
/// relative to the destination root.
#[derive(Debug, PartialEq)]
pub enum Action {
    MkDir { path: Vec<String> },
    WriteFile { path: Vec<String>, content: String },
}

/// The mathematical shadow of `Action`.
pub ghost enum GAction {
    MkDir { path: Seq<Seq<char>> },
    WriteFile { path: Seq<Seq<char>>, content: Seq<char> },
}

pub open spec fn action_model(a: Action) -> GAction {
    match a {
        Action::MkDir { path } => GAction::MkDir { path: path.deep_view() },
        Action::WriteFile { path, content } => GAction::WriteFile {
            path: path.deep_view(),
            content: content@,
        },
    }
}

pub open spec fn acts_model(s: Seq<Action>) -> Seq<GAction>
    decreases s,
{
    if s.len() == 0 {
        Seq::empty()
    } else {
        acts_model(s.drop_last()).push(action_model(s.last()))
    }
}

pub proof fn lemma_acts_model_push(s: Seq<Action>, a: Action)
    ensures
        acts_model(s.push(a)) == acts_model(s).push(action_model(a)),
{
    assert(s.push(a).drop_last() =~= s);
    assert(s.push(a).last() == a);
}

/// The steps writing one module takes: an entry module is one file named
/// `main.rs` at the current directory; a named unit with children first
/// makes its directory, writes each child into it, then writes its own
/// sibling file.
pub open spec fn module_actions(m: GModule, dir: Seq<Seq<char>>) -> Seq<GAction>
    decreases m,
{
    match m {
        GModule::EntryPoint { content } => seq![
            GAction::WriteFile { path: dir.push("main.rs"@), content: content },
        ],
        GModule::Lib { name, content, modules } => (if modules.len() > 0 {
            seq![GAction::MkDir { path: dir.push(name) }]
        } else {
            Seq::empty()
        }) + modules_actions(modules, dir.push(name)) + seq![
            GAction::WriteFile { path: dir.push(name + ".rs"@), content: content },
        ],
    }
}

/// The steps writing a module list takes, in list order.
pub open spec fn modules_actions(ms: Seq<GModule>, dir: Seq<Seq<char>>) -> Seq<GAction>
    decreases ms,
{
    if ms.len() == 0 {
        Seq::empty()
    } else {
        modules_actions(ms.drop_last(), dir) + module_actions(ms.last(), dir)
    }
}

/// A fresh path with one more segment.
fn push_seg(dir: &Vec<String>, seg: &str) -> (r: Vec<String>)
    ensures
        r.deep_view() == dir.deep_view().push(seg@),
{
    let mut r = dir.clone();
    proof {
        assert(r.deep_view() =~= dir.deep_view());
    }
    r.push(seg.to_owned());
    proof {
        assert(r.deep_view() =~= dir.deep_view().push(seg@));
    }
    r
}

/// Appends the steps that write one module under `dir`.
#[verifier::loop_isolation(false)]
pub fn write_module(m: &Module, dir: &Vec<String>, out: &mut Vec<Action>)
    ensures
        acts_model(final(out)@) == acts_model(old(out)@) + module_actions(
            module_model(*m),
            dir.deep_view(),
        ),
    decreases *m,
{
    let ghost gdir = dir.deep_view();
    match m {
        Module::EntryPoint { content } => {
            let ghost prev = out@;
            out.push(
                Action::WriteFile { path: push_seg(dir, "main.rs"), content: content.clone() },
            );
            proof {
                lemma_acts_model_push(prev, out@.last());
                assert(acts_model(out@) =~= acts_model(prev) + module_actions(
                    module_model(*m),
                    gdir,
                ));
            }
        },
        Module::Lib { name, content, modules } => {
            let sub = push_seg(dir, name.as_str());
            if modules.len() > 0 {
                let ghost prev = out@;
                out.push(Action::MkDir { path: sub.clone() });
                proof {
                    lemma_acts_model_push(prev, out@.last());
                    assert(out@.last() matches Action::MkDir { path } ==> path.deep_view()
                        =~= gdir.push(name@));
                }
            }
            write_modules(modules, &sub, out);
            let mut fname = name.clone();
            fname.append(".rs");
            let fpath = push_seg(dir, fname.as_str());
            let ghost prev = out@;
            out.push(Action::WriteFile { path: fpath, content: content.clone() });
            proof {
                lemma_acts_model_push(prev, out@.last());
                assert(acts_model(out@) =~= acts_model(old(out)@) + module_actions(
                    module_model(*m),
                    gdir,
                ));
            }
        },
    }
}

/// Appends the steps that write each module of the list under `dir`.
#[verifier::loop_isolation(false)]
pub fn write_modules(modules: &Vec<Module>, dir: &Vec<String>, out: &mut Vec<Action>)
    ensures
        acts_model(final(out)@) == acts_model(old(out)@) + modules_actions(
            mods_model(modules@),
            dir.deep_view(),
        ),
    decreases modules@,
{
    let ghost gms = mods_model(modules@);
    let mut i: usize = 0;
    proof {
        crate::module::lemma_mods_model_len(modules@);
        assert(acts_model(out@) =~= acts_model(old(out)@) + modules_actions(
            gms.subrange(0, 0),
            dir.deep_view(),
        ));
    }
    while i < modules.len()
        invariant
            i <= modules@.len(),
            acts_model(out@) == acts_model(old(out)@) + modules_actions(
                gms.subrange(0, i as int),
                dir.deep_view(),
            ),
        decreases modules@.len() - i,
    {
        write_module(&modules[i], dir, out);
        i = i + 1;
        proof {
            crate::module::lemma_mods_model_index(modules@, i - 1);
            assert(gms.subrange(0, i as int).drop_last() =~= gms.subrange(0, i - 1));
            assert(acts_model(out@) =~= acts_model(old(out)@) + modules_actions(
                gms.subrange(0, i as int),
                dir.deep_view(),
            ));
        }
    }
    proof {
        assert(gms.subrange(0, modules@.len() as int) =~= gms);
    }
}

/// What the whole pipeline yields on a source text: classify every
/// declaration, then build the module tree, outermost level first.
pub open spec fn spec_code_model(s: Seq<char>, ds: Seq<Decl>, markers: Seq<Seq<char>>) -> Seq<
    GModule,
> {
    spec_build(spec_classify_list(s, 0, ds, markers), true)
}

/// A restructured program: the module tree the pipeline built from one
/// monolithic source text.
pub struct Code {
    modules: Vec<Module>,
}

impl Code {
    /// The tree this code holds.
    pub closed spec fn model(&self) -> Seq<GModule> {
        mods_model(self.modules@)
    }

    /// Runs classification, deduplication and the tree builder over the
    /// declarations parsed out of `input`.
    pub fn parse(input: &str, decls: &Vec<Decl>, markers: &Vec<String>) -> (r: Code)
        requires
            decls_wf(input@, 0, decls@),
        ensures
            r.model() == spec_code_model(input@, decls@, markers.deep_view()),
    {
        let fragments = classify(input, decls, markers);
        let modules = build_modules(fragments, true);
        Code { modules }
    }

    /// Plans the writes that persist the tree: every path is relative to the
    /// destination root, directories come before the files inside them, and
    /// the steps are performed in order, aborting on the first failure.
    pub fn write(&self) -> (r: Vec<Action>)
        ensures
            acts_model(r@) == modules_actions(self.model(), Seq::empty()),
    {
        let mut out: Vec<Action> = Vec::new();
        let dir: Vec<String> = Vec::new();
        proof {
            assert(acts_model(out@) =~= Seq::<GAction>::empty());
            assert(dir.deep_view() =~= Seq::<Seq<char>>::empty());
        }
        write_modules(&self.modules, &dir, &mut out);
        out
    }
}

} // verus!
