use restruct::code::{Action, Code};
use restruct::decl::{Decl, DeclBody, FnDecl, Stmt};
use restruct::dedup::dedup_fragments;
use restruct::fragment::{classify, default_markers, Fragment};
use restruct::Loc;

fn loc(line: usize, column: usize) -> Loc {
    Loc { line, column }
}

fn ty(start: Loc, end: Loc, name: &str, text: &str) -> Decl {
    Decl { start, end, body: DeclBody::Ty { name: name.to_string(), text: text.to_string() } }
}

fn write_of<'a>(actions: &'a [Action], path: &[&str]) -> Option<&'a str> {
    for a in actions {
        if let Action::WriteFile { path: p, content } = a {
            if p.iter().map(|s| s.as_str()).collect::<Vec<_>>() == path {
                return Some(content.as_str());
            }
        }
    }
    None
}

fn has_mkdir(actions: &[Action], path: &[&str]) -> bool {
    actions.iter().any(|a| match a {
        Action::MkDir { path: p } => p.iter().map(|s| s.as_str()).collect::<Vec<_>>() == path,
        _ => false,
    })
}

#[test]
fn classifier_tags_each_kind() {
    let input = "use std::fmt;\nconst N: u32 = 1;\nprintln!();\n";
    let decls = vec![
        Decl {
            start: loc(1, 0),
            end: loc(1, 13),
            body: DeclBody::UseItem { text: "use std :: fmt ;".to_string() },
        },
        Decl {
            start: loc(2, 0),
            end: loc(2, 17),
            body: DeclBody::ConstItem { text: "pub const N : u32 = 1 ;".to_string() },
        },
        Decl {
            start: loc(3, 0),
            end: loc(3, 11),
            body: DeclBody::Other { text: "println ! ( ) ;".to_string() },
        },
    ];
    let frags = classify(input, &decls, &default_markers());
    assert_eq!(frags.len(), 3);
    assert_eq!(frags[0], Fragment::Use { content: "use std :: fmt ;".to_string() });
    assert_eq!(frags[1], Fragment::Const { content: "\npub const N : u32 = 1 ;".to_string() });
    assert_eq!(frags[2], Fragment::Common { content: "\nprintln ! ( ) ;".to_string() });
}

#[test]
fn classifier_canonicalizes_model_names() {
    let input = "struct UserSession;\n";
    let decls = vec![ty(loc(1, 0), loc(1, 19), "UserSession", "pub struct UserSession ;")];
    let frags = classify(input, &decls, &default_markers());
    match &frags[0] {
        Fragment::Model { name, .. } => assert_eq!(name, "user_session"),
        other => panic!("expected a model, got {:?}", other),
    }
}

#[test]
fn classifier_splits_resources_from_functions() {
    let input = "fn get_users() {\nGET();\n}\nfn helper() {\nwork();\n}\n";
    let decls = vec![
        Decl {
            start: loc(1, 0),
            end: loc(3, 1),
            body: DeclBody::Fn(FnDecl {
                name: "get_users".to_string(),
                attrs: String::new(),
                vis: String::new(),
                sig: "fn get_users ()".to_string(),
                body_open: loc(1, 16),
                stmts: vec![Stmt {
                    text: "GET ( ) ;".to_string(),
                    start: loc(2, 0),
                    end: loc(2, 6),
                }],
            }),
        },
        Decl {
            start: loc(4, 0),
            end: loc(6, 1),
            body: DeclBody::Fn(FnDecl {
                name: "helper".to_string(),
                attrs: String::new(),
                vis: String::new(),
                sig: "fn helper ()".to_string(),
                body_open: loc(4, 13),
                stmts: vec![Stmt {
                    text: "work ( ) ;".to_string(),
                    start: loc(5, 0),
                    end: loc(5, 7),
                }],
            }),
        },
    ];
    let frags = classify(input, &decls, &default_markers());
    match &frags[0] {
        Fragment::ApiResource { name, content } => {
            assert_eq!(name, "get_users");
            // visibility promoted to public
            assert!(content.contains(" pub fn get_users ()"));
        }
        other => panic!("expected a resource, got {:?}", other),
    }
    match &frags[1] {
        Fragment::Function { name, .. } => assert_eq!(name, "helper"),
        other => panic!("expected a function, got {:?}", other),
    }
}

#[test]
fn marker_in_comment_still_classifies_as_resource() {
    // The heuristic is lexical: a token in preceding trivia triggers it too.
    let input = "// calls GET\nfn quiet() {\n}\n";
    let decls = vec![Decl {
        start: loc(2, 0),
        end: loc(3, 1),
        body: DeclBody::Fn(FnDecl {
            name: "quiet".to_string(),
            attrs: String::new(),
            vis: String::new(),
            sig: "fn quiet ()".to_string(),
            body_open: loc(2, 12),
            stmts: vec![],
        }),
    }];
    let frags = classify(input, &decls, &default_markers());
    assert!(matches!(&frags[0], Fragment::ApiResource { .. }));
}

#[test]
fn dedup_merges_same_named_models_first_seen_order() {
    let frags = vec![
        Fragment::Model { name: "session".to_string(), content: "pub struct Session ;".to_string() },
        Fragment::Use { content: "use a ;".to_string() },
        Fragment::Model { name: "session".to_string(), content: "impl Session { }".to_string() },
        Fragment::Model { name: "user".to_string(), content: "pub struct User ;".to_string() },
    ];
    let out = dedup_fragments(frags);
    assert_eq!(out.len(), 3);
    assert_eq!(out[0], Fragment::Use { content: "use a ;".to_string() });
    assert_eq!(
        out[1],
        Fragment::Model {
            name: "session".to_string(),
            content: "pub struct Session ;\nimpl Session { }".to_string(),
        }
    );
    assert_eq!(
        out[2],
        Fragment::Model { name: "user".to_string(), content: "pub struct User ;".to_string() }
    );
}

#[test]
fn dedup_twice_changes_nothing() {
    let make = || {
        vec![
            Fragment::Model { name: "a".to_string(), content: "one".to_string() },
            Fragment::Model { name: "a".to_string(), content: "two".to_string() },
            Fragment::Const { content: "pub const K : u32 = 0 ;".to_string() },
        ]
    };
    let once = dedup_fragments(make());
    let twice = dedup_fragments(dedup_fragments(make()));
    assert_eq!(once, twice);
}

#[test]
fn scenario_handlers_struct_and_impl() {
    let input = "fn main() {\ncall();\n}\nfn get_users() {\nGET();\n}\nfn create_user() {\nPOST();\n}\nstruct User;\nimpl User {}\n";
    let decls = vec![
        Decl {
            start: loc(1, 0),
            end: loc(3, 1),
            body: DeclBody::Fn(FnDecl {
                name: "main".to_string(),
                attrs: String::new(),
                vis: String::new(),
                sig: "fn main ()".to_string(),
                body_open: loc(1, 11),
                stmts: vec![Stmt {
                    text: "call ( ) ;".to_string(),
                    start: loc(2, 0),
                    end: loc(2, 7),
                }],
            }),
        },
        Decl {
            start: loc(4, 0),
            end: loc(6, 1),
            body: DeclBody::Fn(FnDecl {
                name: "get_users".to_string(),
                attrs: String::new(),
                vis: String::new(),
                sig: "fn get_users ()".to_string(),
                body_open: loc(4, 16),
                stmts: vec![Stmt {
                    text: "GET ( ) ;".to_string(),
                    start: loc(5, 0),
                    end: loc(5, 6),
                }],
            }),
        },
        Decl {
            start: loc(7, 0),
            end: loc(9, 1),
            body: DeclBody::Fn(FnDecl {
                name: "create_user".to_string(),
                attrs: String::new(),
                vis: String::new(),
                sig: "fn create_user ()".to_string(),
                body_open: loc(7, 18),
                stmts: vec![Stmt {
                    text: "POST ( ) ;".to_string(),
                    start: loc(8, 0),
                    end: loc(8, 7),
                }],
            }),
        },
        ty(loc(10, 0), loc(10, 12), "User", "pub struct User ;"),
        Decl {
            start: loc(11, 0),
            end: loc(11, 12),
            body: DeclBody::ImplBlock {
                target: "User".to_string(),
                text: "impl User { }".to_string(),
            },
        },
    ];
    let code = Code::parse(input, &decls, &default_markers());
    let actions = code.write();

    assert!(write_of(&actions, &["resources", "get_users.rs"]).is_some());
    assert!(write_of(&actions, &["resources", "create_user.rs"]).is_some());
    let user = write_of(&actions, &["models", "user.rs"]).expect("one merged model file");
    // the struct's text comes first, the impl block's after, one line break
    // between the contributions
    assert_eq!(user, "\nuse crate::*;\npub struct User ;\n\nimpl User { }");
    // the rewritten entry file keeps the entry routine's body
    let main = write_of(&actions, &["main.rs"]).expect("rewritten entry file");
    assert!(main.contains("fn main () {\ncall ( ) ;}"));
    assert!(main.contains("pub mod resources; pub use self::resources::*;"));
}

#[test]
fn scenario_two_sessions_merge_into_one_file() {
    let input = "struct Session;\nstruct SESSION;\n";
    let decls = vec![
        ty(loc(1, 0), loc(1, 15), "Session", "pub struct Session ;"),
        ty(loc(2, 0), loc(2, 15), "SESSION", "pub struct SESSION ;"),
    ];
    let code = Code::parse(input, &decls, &default_markers());
    let actions = code.write();
    let merged = write_of(&actions, &["models", "session.rs"]).expect("one session file");
    assert_eq!(merged, "\nuse crate::*;pub struct Session ;\n\npub struct SESSION ;");
    // no second sibling model file
    let model_files = actions
        .iter()
        .filter(|a| match a {
            Action::WriteFile { path, .. } => path.len() == 2 && path[0] == "models",
            _ => false,
        })
        .count();
    assert_eq!(model_files, 1);
}

#[test]
fn scenario_namespace_with_one_const() {
    let input = "mod config {\nconst X: u32 = 1;\n}\n";
    let decls = vec![Decl {
        start: loc(1, 0),
        end: loc(3, 1),
        body: DeclBody::ModItem {
            name: "config".to_string(),
            body_open: loc(1, 12),
            children: Some(vec![Decl {
                start: loc(2, 0),
                end: loc(2, 17),
                body: DeclBody::ConstItem { text: "pub const X : u32 = 1 ;".to_string() },
            }]),
        },
    }];
    let code = Code::parse(input, &decls, &default_markers());
    let actions = code.write();
    assert!(has_mkdir(&actions, &["config"]));
    let consts = write_of(&actions, &["config", "consts.rs"]).expect("consts file inside");
    assert!(consts.contains("pub const X : u32 = 1 ;"));
    let sibling = write_of(&actions, &["config.rs"]).expect("sibling namespace file");
    assert!(sibling.contains("pub mod consts; pub use self::consts::*;"));
}

#[test]
fn bodyless_namespace_stays_a_bare_declaration() {
    let input = "mod helpers;\n";
    let decls = vec![Decl {
        start: loc(1, 0),
        end: loc(1, 12),
        body: DeclBody::ModItem {
            name: "helpers".to_string(),
            body_open: loc(1, 0),
            children: None,
        },
    }];
    let code = Code::parse(input, &decls, &default_markers());
    let actions = code.write();
    assert!(!has_mkdir(&actions, &["helpers"]));
    assert!(write_of(&actions, &["helpers.rs"]).is_none());
    let main = write_of(&actions, &["main.rs"]).expect("entry file");
    assert!(main.contains("mod helpers;"));
}

#[test]
fn entry_comment_survives_before_its_statement() {
    let input = "fn main() {\n// say hi\ngreet();\n}\n";
    let decls = vec![Decl {
        start: loc(1, 0),
        end: loc(4, 1),
        body: DeclBody::Fn(FnDecl {
            name: "main".to_string(),
            attrs: String::new(),
            vis: String::new(),
            sig: "fn main ()".to_string(),
            body_open: loc(1, 11),
            stmts: vec![Stmt {
                text: "greet ( ) ;".to_string(),
                start: loc(3, 0),
                end: loc(3, 8),
            }],
        }),
    }];
    let code = Code::parse(input, &decls, &default_markers());
    let actions = code.write();
    let main = write_of(&actions, &["main.rs"]).expect("entry file");
    assert!(main.contains("// say hi\ngreet ( ) ;"));
}

#[test]
fn empty_input_still_plans_the_aggregators() {
    let code = Code::parse("", &vec![], &default_markers());
    let actions = code.write();
    assert!(write_of(&actions, &["resources.rs"]).is_some());
    assert!(write_of(&actions, &["functions.rs"]).is_some());
    assert!(write_of(&actions, &["models.rs"]).is_some());
    let consts = write_of(&actions, &["consts.rs"]).expect("consts file");
    assert_eq!(consts, "\nuse crate::*;");
    // nothing common, so no common file
    assert!(write_of(&actions, &["common.rs"]).is_none());
    assert!(write_of(&actions, &["main.rs"]).is_some());
}

#[test]
fn common_file_appears_only_when_needed() {
    let input = "println!();\n";
    let decls = vec![Decl {
        start: loc(1, 0),
        end: loc(1, 11),
        body: DeclBody::Other { text: "println ! ( ) ;".to_string() },
    }];
    let code = Code::parse(input, &decls, &default_markers());
    let actions = code.write();
    let common = write_of(&actions, &["common.rs"]).expect("common file");
    assert_eq!(common, "\nuse crate::*;println ! ( ) ;");
}

#[test]
fn imports_prefix_every_leaf_file() {
    let input = "use std::fmt;\nfn helper() {\n}\n";
    let decls = vec![
        Decl {
            start: loc(1, 0),
            end: loc(1, 13),
            body: DeclBody::UseItem { text: "use std :: fmt ;".to_string() },
        },
        Decl {
            start: loc(2, 0),
            end: loc(3, 1),
            body: DeclBody::Fn(FnDecl {
                name: "helper".to_string(),
                attrs: String::new(),
                vis: String::new(),
                sig: "fn helper ()".to_string(),
                body_open: loc(2, 13),
                stmts: vec![],
            }),
        },
    ];
    let code = Code::parse(input, &decls, &default_markers());
    let actions = code.write();
    let helper = write_of(&actions, &["functions", "helper.rs"]).expect("leaf file");
    assert!(helper.starts_with("use std :: fmt ;\nuse crate::*;"));
    let main = write_of(&actions, &["main.rs"]).expect("entry file");
    // the root import block has no crate-wide re-import
    assert!(main.starts_with("use std :: fmt ;"));
}

#[test]
fn inner_levels_produce_no_entry_file() {
    let input = "mod config {\nconst X: u32 = 1;\n}\n";
    let decls = vec![Decl {
        start: loc(1, 0),
        end: loc(3, 1),
        body: DeclBody::ModItem {
            name: "config".to_string(),
            body_open: loc(1, 12),
            children: Some(vec![Decl {
                start: loc(2, 0),
                end: loc(2, 17),
                body: DeclBody::ConstItem { text: "pub const X : u32 = 1 ;".to_string() },
            }]),
        },
    }];
    let code = Code::parse(input, &decls, &default_markers());
    let actions = code.write();
    // only the outermost level gets an entry file
    assert!(write_of(&actions, &["main.rs"]).is_some());
    assert!(write_of(&actions, &["config", "main.rs"]).is_none());
}

#[test]
fn nested_namespaces_recurse() {
    let input = "mod outer {\nmod inner {\nstruct Point;\n}\n}\n";
    let decls = vec![Decl {
        start: loc(1, 0),
        end: loc(5, 1),
        body: DeclBody::ModItem {
            name: "outer".to_string(),
            body_open: loc(1, 11),
            children: Some(vec![Decl {
                start: loc(2, 0),
                end: loc(4, 1),
                body: DeclBody::ModItem {
                    name: "inner".to_string(),
                    body_open: loc(2, 11),
                    children: Some(vec![ty(
                        loc(3, 0),
                        loc(3, 13),
                        "Point",
                        "pub struct Point ;",
                    )]),
                },
            }]),
        },
    }];
    let code = Code::parse(input, &decls, &default_markers());
    let actions = code.write();
    assert!(has_mkdir(&actions, &["outer"]));
    assert!(has_mkdir(&actions, &["outer", "inner"]));
    assert!(has_mkdir(&actions, &["outer", "inner", "models"]));
    let point = write_of(&actions, &["outer", "inner", "models", "point.rs"])
        .expect("model file two levels down");
    assert!(point.contains("pub struct Point ;"));
    let sibling = write_of(&actions, &["outer", "inner.rs"]).expect("inner namespace file");
    assert!(sibling.contains("pub mod models; pub use self::models::*;"));
}

#[test]
fn entry_reexport_order_follows_the_level_layout() {
    let input = "println!();\nmod config {\nconst X: u32 = 1;\n}\n";
    let decls = vec![
        Decl {
            start: loc(1, 0),
            end: loc(1, 11),
            body: DeclBody::Other { text: "println ! ( ) ;".to_string() },
        },
        Decl {
            start: loc(2, 0),
            end: loc(4, 1),
            body: DeclBody::ModItem {
                name: "config".to_string(),
                body_open: loc(2, 12),
                children: Some(vec![Decl {
                    start: loc(3, 0),
                    end: loc(3, 17),
                    body: DeclBody::ConstItem { text: "pub const X : u32 = 1 ;".to_string() },
                }]),
            },
        },
    ];
    let code = Code::parse(input, &decls, &default_markers());
    let actions = code.write();
    let main = write_of(&actions, &["main.rs"]).expect("entry file");
    let pos = |needle: &str| main.find(needle).expect(needle);
    assert!(pos("pub mod resources;") < pos("pub mod functions;"));
    assert!(pos("pub mod functions;") < pos("pub mod models;"));
    assert!(pos("pub mod models;") < pos("pub mod consts;"));
    assert!(pos("pub mod consts;") < pos("pub mod common;"));
    assert!(pos("pub mod common;") < pos("pub mod config;"));
}

#[test]
fn default_marker_list_is_the_documented_one() {
    let m = default_markers();
    let expect = vec![
        "GET", "POST", "PUT", "PATCH", "DELETE", "web ::", "HttpResponse", "actix_web ::",
    ];
    assert_eq!(m, expect);
}
