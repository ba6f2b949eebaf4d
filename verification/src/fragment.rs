//! The Fragment Classifier: walks the declaration sequence in source order,
//! slicing the trivia before each declaration and tagging it by kind.

use crate::decl::{
    decl_wf, decls_cursor, decls_wf, start_off, stmt_cursor, stmts_wf, Decl, DeclBody,
    FnDecl,
};
use crate::outside::{snake_case, snake_of};
use crate::text::{any_marker, contains_any, loc_offset, loc_valid, str_eq, ParseContext};
use vstd::prelude::*;

verus! {

/// One tagged node per declaration: the pipeline's working currency.
#[derive(Debug, PartialEq)]
pub enum Fragment {
    /// The program's start-up routine, internal trivia preserved.
    EntryPoint { content: String },
    /// A handler-like function, detected by the marker heuristic.
    ApiResource { name: String, content: String },
    /// Any other named function.
    Function { name: String, content: String },
    /// A type declaration or implementation block, keyed by canonical name.
    Model { name: String, content: String },
    /// A constant or mutable static; untracked name.
    Const { content: String },
    /// An import, verbatim.
    Use { content: String },
    /// A namespace; `fragments: None` means its body lives elsewhere.
    Mod { name: String, fragments: Option<Vec<Fragment>> },
    /// Catch-all for macro invocations and anything without a bucket.
    Common { content: String },
}

/// The mathematical shadow of `Fragment`, over character sequences.
pub ghost enum GFragment {
    EntryPoint { content: Seq<char> },
    ApiResource { name: Seq<char>, content: Seq<char> },
    Function { name: Seq<char>, content: Seq<char> },
    Model { name: Seq<char>, content: Seq<char> },
    Const { content: Seq<char> },
    Use { content: Seq<char> },
    Mod { name: Seq<char>, fragments: Option<Seq<GFragment>> },
    Common { content: Seq<char> },
}

/// The mathematical value a fragment stands for.
pub open spec fn frag_model(f: Fragment) -> GFragment
    decreases f,
{
    match f {
        Fragment::EntryPoint { content } => GFragment::EntryPoint { content: content@ },
        Fragment::ApiResource { name, content } => GFragment::ApiResource {
            name: name@,
            content: content@,
        },
        Fragment::Function { name, content } => GFragment::Function {
            name: name@,
            content: content@,
        },
        Fragment::Model { name, content } => GFragment::Model {
            name: name@,
            content: content@,
        },
        Fragment::Const { content } => GFragment::Const { content: content@ },
        Fragment::Use { content } => GFragment::Use { content: content@ },
        Fragment::Mod { name, fragments } => GFragment::Mod {
            name: name@,
            fragments: match fragments {
                Some(v) => Some(frags_model(v@)),
                None => None,
            },
        },
        Fragment::Common { content } => GFragment::Common { content: content@ },
    }
}

/// The mathematical values of a fragment sequence, elementwise.
pub open spec fn frags_model(s: Seq<Fragment>) -> Seq<GFragment>
    decreases s,
{
    if s.len() == 0 {
        Seq::empty()
    } else {
        frags_model(s.drop_last()).push(frag_model(s.last()))
    }
}

/// The designated entry routine's name.
pub open spec fn is_entry_name(n: Seq<char>) -> bool {
    n == "main"@
}

/// The text of the entry routine's first `i` statements, each preceded by
/// the trivia standing before it in the source.
pub open spec fn spec_stmts_text(
    s: Seq<char>,
    from: int,
    stmts: Seq<crate::decl::Stmt>,
    i: int,
) -> Seq<char>
    decreases i,
{
    if i <= 0 {
        Seq::empty()
    } else {
        spec_stmts_text(s, from, stmts, i - 1) + s.subrange(
            stmt_cursor(s, from, stmts, i - 1),
            loc_offset(s, stmts[i - 1].start),
        ) + stmts[i - 1].text@
    }
}

/// A function declaration's rendered text: attributes, the given visibility,
/// the signature, then the body statement by statement with each statement's
/// own preceding trivia kept.
pub open spec fn spec_fn_code(s: Seq<char>, f: FnDecl, vis: Seq<char>) -> Seq<char> {
    f.attrs@ + " "@ + vis + " "@ + f.sig@ + " "@ + "{"@ + spec_stmts_text(
        s,
        loc_offset(s, f.body_open),
        f.stmts@,
        f.stmts@.len() as int,
    ) + "}"@
}

/// Where the cursor stands after walking a function's body.
pub open spec fn fn_code_cursor(s: Seq<char>, f: FnDecl) -> int {
    stmt_cursor(s, loc_offset(s, f.body_open), f.stmts@, f.stmts@.len() as int)
}

/// The fragment one declaration classifies to, with the cursor at `cur`:
/// its preceding trivia followed by its rendered text, tagged by kind.
pub open spec fn spec_classify_one(
    s: Seq<char>,
    cur: int,
    d: Decl,
    markers: Seq<Seq<char>>,
) -> GFragment
    decreases d,
{
    let triv = s.subrange(cur, start_off(s, d));
    match d.body {
        DeclBody::Fn(f) => {
            if is_entry_name(f.name@) {
                GFragment::EntryPoint { content: triv + spec_fn_code(s, f, f.vis@) }
            } else {
                let content = triv + spec_fn_code(s, f, "pub"@);
                if any_marker(content, markers) {
                    GFragment::ApiResource { name: f.name@, content }
                } else {
                    GFragment::Function { name: f.name@, content }
                }
            }
        },
        DeclBody::Ty { name, text } => GFragment::Model {
            name: snake_of(name@),
            content: triv + text@,
        },
        DeclBody::ImplBlock { target, text } => GFragment::Model {
            name: snake_of(target@),
            content: triv + text@,
        },
        DeclBody::ConstItem { text } => GFragment::Const { content: triv + text@ },
        DeclBody::UseItem { text } => GFragment::Use { content: triv + text@ },
        DeclBody::ModItem { name, body_open, children } => GFragment::Mod {
            name: snake_of(name@),
            fragments: match children {
                Some(ch) => Some(
                    spec_classify_list(s, loc_offset(s, body_open), ch@, markers),
                ),
                None => None,
            },
        },
        DeclBody::Other { text } => GFragment::Common { content: triv + text@ },
    }
}

/// The fragments a declaration sequence classifies to, in source order, one
/// per declaration, the cursor threading through their end offsets.
pub open spec fn spec_classify_list(
    s: Seq<char>,
    from: int,
    ds: Seq<Decl>,
    markers: Seq<Seq<char>>,
) -> Seq<GFragment>
    decreases ds,
{
    if ds.len() == 0 {
        Seq::empty()
    } else {
        spec_classify_list(s, from, ds.drop_last(), markers).push(
            spec_classify_one(s, decls_cursor(s, from, ds, ds.len() - 1), ds.last(), markers),
        )
    }
}

/// Reassembles a function declaration: attributes, the given visibility and
/// the signature, then the body statement by statement, slicing the trivia
/// before each statement so inline comments survive verbatim.
pub fn parse_fn_code(ctx: &mut ParseContext, f: &FnDecl, vis: &str) -> (r: String)
    requires
        old(ctx).wf(),
        loc_valid(old(ctx).input@, f.body_open),
        stmts_wf(old(ctx).input@, loc_offset(old(ctx).input@, f.body_open), f.stmts@),
    ensures
        final(ctx).input@ == old(ctx).input@,
        final(ctx).wf(),
        final(ctx).current_offset as int == fn_code_cursor(old(ctx).input@, *f),
        r@ == spec_fn_code(old(ctx).input@, *f, vis@),
{
    let ghost s = old(ctx).input@;
    let ghost bo = loc_offset(s, f.body_open);
    let mut code = String::new();
    code.append(f.attrs.as_str());
    code.append(" ");
    code.append(vis);
    code.append(" ");
    code.append(f.sig.as_str());
    code.append(" ");
    code.append("{");
    let ghost prefix = f.attrs@ + " "@ + vis@ + " "@ + f.sig@ + " "@ + "{"@;
    let off = crate::text::char_offset(ctx.input.as_str(), f.body_open);
    ctx.update_offset(off);
    let n = f.stmts.len();
    let mut i: usize = 0;
    proof {
        assert(code@ =~= prefix + spec_stmts_text(s, bo, f.stmts@, 0));
    }
    while i < n
        invariant
            n == f.stmts@.len(),
            i <= n,
            ctx.wf(),
            ctx.input@ == s,
            stmts_wf(s, bo, f.stmts@),
            ctx.current_offset as int == stmt_cursor(s, bo, f.stmts@, i as int),
            code@ == prefix + spec_stmts_text(s, bo, f.stmts@, i as int),
        decreases n - i,
    {
        let st = &f.stmts[i];
        let so = crate::text::char_offset(ctx.input.as_str(), st.start);
        let comment = ctx.text_between(so);
        code.append(comment.as_str());
        code.append(st.text.as_str());
        let eo = crate::text::char_offset(ctx.input.as_str(), st.end);
        ctx.update_offset(eo);
        i = i + 1;
        proof {
            assert(code@ =~= prefix + spec_stmts_text(s, bo, f.stmts@, i as int));
        }
    }
    code.append("}");
    proof {
        assert(code@ =~= spec_fn_code(s, *f, vis@));
    }
    code
}

/// Classifies each declaration in source order, slicing the trivia before it
/// and advancing the cursor past its end; recurses into inline namespace
/// bodies. Classification is total: every declaration gets a fragment.
pub fn classify_decls(ctx: &mut ParseContext, decls: &Vec<Decl>, markers: &Vec<String>) -> (r:
    Vec<Fragment>)
    requires
        old(ctx).wf(),
        decls_wf(old(ctx).input@, old(ctx).current_offset as int, decls@),
    ensures
        final(ctx).input@ == old(ctx).input@,
        final(ctx).wf(),
        final(ctx).current_offset as int == decls_cursor(
            old(ctx).input@,
            old(ctx).current_offset as int,
            decls@,
            decls@.len() as int,
        ),
        frags_model(r@) == spec_classify_list(
            old(ctx).input@,
            old(ctx).current_offset as int,
            decls@,
            markers.deep_view(),
        ),
    decreases decls@,
{
    let ghost s = old(ctx).input@;
    let ghost from = old(ctx).current_offset as int;
    let ghost m = markers.deep_view();
    let mut fragments: Vec<Fragment> = Vec::new();
    let n = decls.len();
    let mut i: usize = 0;
    proof {
        assert(frags_model(fragments@) =~= spec_classify_list(s, from, decls@.subrange(0, 0), m));
    }
    while i < n
        invariant
            n == decls@.len(),
            i <= n,
            ctx.wf(),
            ctx.input@ == s,
            decls_wf(s, from, decls@),
            ctx.current_offset as int == decls_cursor(s, from, decls@, i as int),
            frags_model(fragments@) == spec_classify_list(s, from, decls@.subrange(0, i as int), m),
            m == markers.deep_view(),
        decreases n - i,
    {
        let d = &decls[i];
        let ghost cur = decls_cursor(s, from, decls@, i as int);
        proof {
            assert(decl_wf(s, cur, decls@[i as int]));
        }
        let off = crate::text::char_offset(ctx.input.as_str(), d.start);
        let comment = ctx.text_between(off);
        let frag: Fragment = match &d.body {
            DeclBody::Fn(f) => {
                if str_eq(f.name.as_str(), "main") {
                    let code = parse_fn_code(ctx, f, f.vis.as_str());
                    Fragment::EntryPoint { content: comment.concat(code.as_str()) }
                } else {
                    let code = parse_fn_code(ctx, f, "pub");
                    let content = comment.concat(code.as_str());
                    if contains_any(content.as_str(), markers) {
                        Fragment::ApiResource { name: f.name.clone(), content }
                    } else {
                        Fragment::Function { name: f.name.clone(), content }
                    }
                }
            },
            DeclBody::Ty { name, text } => Fragment::Model {
                name: snake_case(name.as_str()),
                content: comment.concat(text.as_str()),
            },
            DeclBody::ImplBlock { target, text } => Fragment::Model {
                name: snake_case(target.as_str()),
                content: comment.concat(text.as_str()),
            },
            DeclBody::ConstItem { text } => Fragment::Const {
                content: comment.concat(text.as_str()),
            },
            DeclBody::UseItem { text } => Fragment::Use {
                content: comment.concat(text.as_str()),
            },
            DeclBody::ModItem { name, body_open, children } => {
                let nm = snake_case(name.as_str());
                match children {
                    Some(ch) => {
                        let bo = crate::text::char_offset(ctx.input.as_str(), *body_open);
                        ctx.update_offset(bo);
                        let inner = classify_decls(ctx, ch, markers);
                        Fragment::Mod { name: nm, fragments: Some(inner) }
                    },
                    None => Fragment::Mod { name: nm, fragments: None },
                }
            },
            DeclBody::Other { text } => Fragment::Common {
                content: comment.concat(text.as_str()),
            },
        };
        let end = crate::text::char_offset(ctx.input.as_str(), d.end);
        ctx.update_offset(end);
        proof {
            assert(frag_model(frag) == spec_classify_one(s, cur, decls@[i as int], m));
        }
        let ghost prev = fragments@;
        fragments.push(frag);
        i = i + 1;
        proof {
            assert(fragments@.drop_last() =~= prev);
            assert(fragments@.last() == frag);
            assert(decls@.subrange(0, i as int).drop_last() =~= decls@.subrange(0, i - 1));
            assert(decls@.subrange(0, i as int).last() == decls@[i - 1]);
            assert(decls_cursor(s, from, decls@.subrange(0, i as int), i - 1) == cur);
            assert(frags_model(fragments@) =~= spec_classify_list(
                s,
                from,
                decls@.subrange(0, i as int),
                m,
            ));
        }
    }
    proof {
        assert(decls@.subrange(0, n as int) =~= decls@);
    }
    fragments
}

/// Classifies a whole source text's declarations, the cursor starting at the
/// very beginning so the leading trivia is kept too.
pub fn classify(input: &str, decls: &Vec<Decl>, markers: &Vec<String>) -> (r: Vec<Fragment>)
    requires
        decls_wf(input@, 0, decls@),
    ensures
        frags_model(r@) == spec_classify_list(input@, 0, decls@, markers.deep_view()),
{
    let mut ctx = ParseContext::new(input.to_owned());
    classify_decls(&mut ctx, decls, markers)
}

/// The marker substrings the handler heuristic looks for: the common HTTP
/// verb tokens in uppercase, and the web-framework tokens the rendered text
/// of a handler carries.
pub open spec fn default_marker_model() -> Seq<Seq<char>> {
    seq![
        "GET"@,
        "POST"@,
        "PUT"@,
        "PATCH"@,
        "DELETE"@,
        "web ::"@,
        "HttpResponse"@,
        "actix_web ::"@,
    ]
}

/// The default marker list; a caller may supply its own to `classify`.
pub fn default_markers() -> (r: Vec<String>)
    ensures
        r.deep_view() == default_marker_model(),
{
    let mut v: Vec<String> = Vec::new();
    v.push("GET".to_owned());
    v.push("POST".to_owned());
    v.push("PUT".to_owned());
    v.push("PATCH".to_owned());
    v.push("DELETE".to_owned());
    v.push("web ::".to_owned());
    v.push("HttpResponse".to_owned());
    v.push("actix_web ::".to_owned());
    proof {
        assert(v.deep_view() =~= default_marker_model());
    }
    v
}

} // verus!
