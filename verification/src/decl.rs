//! The input model: one `Decl` per parsed declaration, holding as plain
//! values everything the classifier reads — spans, identifiers and rendered
//! token text.

use crate::text::{loc_offset, loc_valid};
use crate::Loc;
use vstd::prelude::*;

verus! {

/// One statement of the entry routine's body, with its span.
pub struct Stmt {
    pub text: String,
    pub start: Loc,
    pub end: Loc,
}

/// A function declaration, decomposed so the pipeline can reassemble it with
/// its visibility raised and the trivia between its statements preserved.
pub struct FnDecl {
    /// The function's identifier.
    pub name: String,
    /// Attribute tokens, already concatenated.
    pub attrs: String,
    /// The original visibility tokens.
    pub vis: String,
    /// Signature tokens.
    pub sig: String,
    /// Location just after the body's opening brace.
    pub body_open: Loc,
    pub stmts: Vec<Stmt>,
}

/// What a declaration is, with the plain values the classifier dispatches on.
pub enum DeclBody {
    Fn(FnDecl),
    /// A struct, enum, trait, trait alias, type alias or union, keyed by its
    /// own identifier; `text` is rendered with visibility raised.
    Ty { name: String, text: String },
    /// An associated-implementation block, keyed by its target type.
    ImplBlock { target: String, text: String },
    /// A constant or mutable static, rendered with visibility raised.
    ConstItem { text: String },
    /// An import declaration, verbatim.
    UseItem { text: String },
    /// A namespace. `children: None` means its body lives elsewhere;
    /// `body_open` is the location just after its opening brace.
    ModItem { name: String, body_open: Loc, children: Option<Vec<Decl>> },
    /// Anything else, macro invocations included.
    Other { text: String },
}

/// A declaration with its span in the original text.
pub struct Decl {
    pub start: Loc,
    pub end: Loc,
    pub body: DeclBody,
}

pub open spec fn start_off(s: Seq<char>, d: Decl) -> int {
    loc_offset(s, d.start)
}

pub open spec fn end_off(s: Seq<char>, d: Decl) -> int {
    loc_offset(s, d.end)
}

/// Where the cursor stands before statement `i`: at the body's opening brace
/// for the first, else just after the previous statement.
pub open spec fn stmt_cursor(s: Seq<char>, from: int, stmts: Seq<Stmt>, i: int) -> int {
    if i <= 0 {
        from
    } else {
        loc_offset(s, stmts[i - 1].end)
    }
}

/// The statements' spans are valid and come in non-decreasing order, so the
/// forward-only cursor can slice the trivia before each.
pub open spec fn stmts_wf(s: Seq<char>, from: int, stmts: Seq<Stmt>) -> bool {
    &&& 0 <= from <= s.len()
    &&& forall|i: int|
        0 <= i < stmts.len() ==> {
            &&& loc_valid(s, #[trigger] stmts[i].start)
            &&& loc_valid(s, stmts[i].end)
            &&& stmt_cursor(s, from, stmts, i) <= loc_offset(s, stmts[i].start)
            &&& loc_offset(s, stmts[i].start) <= loc_offset(s, stmts[i].end)
        }
}

/// Where the cursor stands before declaration `i` of a sequence that started
/// at `from`: just after the previous declaration's end.
pub open spec fn decls_cursor(s: Seq<char>, from: int, ds: Seq<Decl>, i: int) -> int {
    if i <= 0 {
        from
    } else {
        end_off(s, ds[i - 1])
    }
}

/// A declaration's spans are valid, start at or after the cursor, and its
/// internal walk (statements, or an inline namespace body) is well-formed in
/// turn: exactly the shape a parse of this text reports.
pub open spec fn decl_wf(s: Seq<char>, from: int, d: Decl) -> bool
    decreases d,
{
    &&& loc_valid(s, d.start)
    &&& loc_valid(s, d.end)
    &&& 0 <= from <= start_off(s, d)
    &&& match d.body {
        DeclBody::Fn(f) => {
            &&& loc_valid(s, f.body_open)
            &&& stmts_wf(s, loc_offset(s, f.body_open), f.stmts@)
        },
        DeclBody::ModItem { body_open, children, .. } => {
            &&& loc_valid(s, body_open)
            &&& match children {
                Some(ch) => decls_wf(s, loc_offset(s, body_open), ch@),
                None => true,
            }
        },
        _ => true,
    }
}

/// Every declaration is well-formed from where the cursor stands before it.
pub open spec fn decls_wf(s: Seq<char>, from: int, ds: Seq<Decl>) -> bool
    decreases ds,
{
    &&& 0 <= from <= s.len()
    &&& forall|i: int|
        0 <= i < ds.len() ==> decl_wf(s, decls_cursor(s, from, ds, i), #[trigger] ds[i])
}

} // verus!
