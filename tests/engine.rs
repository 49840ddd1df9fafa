use templates::bindings::{list_bindings, parse_bindings, VariableBinding};
use templates::error::{check_file, check_folder, PathStatus, TemplateError};
use templates::resolve::{find_template, find_templates, join_path};
use templates::substitute::{replace_occurrences, substitute};
use templates::tag::parse_tag;
use templates::tree::{is_variables_file, list_templates, ChildListing, DirListing};

fn binding(k: &str, v: &str) -> VariableBinding {
    VariableBinding { key: k.to_string(), value: v.to_string() }
}

fn pairs(bs: &[VariableBinding]) -> Vec<(String, String)> {
    bs.iter().map(|b| (b.key.clone(), b.value.clone())).collect()
}

fn names(ns: &[&str]) -> Vec<String> {
    ns.iter().map(|s| s.to_string()).collect()
}

#[test]
fn parse_tag_splits_tag_and_display_name() {
    let p = parse_tag("[readme]CONTRIBUTING.md").unwrap();
    assert_eq!(p.tag, "readme");
    assert_eq!(p.display_name, "CONTRIBUTING.md");
    let e = parse_tag("[]").unwrap();
    assert_eq!(e.tag, "");
    assert_eq!(e.display_name, "");
    let u = parse_tag("[日本]語.md").unwrap();
    assert_eq!(u.tag, "日本");
    assert_eq!(u.display_name, "語.md");
    let inner = parse_tag("x[a[b]c]d").unwrap();
    assert_eq!(inner.tag, "a[b");
    assert_eq!(inner.display_name, "c]d");
}

#[test]
fn parse_tag_without_brackets_is_malformed() {
    for name in ["README.md", "[readme", "readme]x", ""] {
        assert_eq!(
            parse_tag(name).err(),
            Some(TemplateError::MalformedTemplateName(name.to_string()))
        );
    }
}

#[test]
fn parse_tag_with_closing_bracket_first_is_malformed() {
    assert_eq!(
        parse_tag("a]b[c").err(),
        Some(TemplateError::MalformedTemplateName("a]b[c".to_string()))
    );
}

#[test]
fn find_template_in_project_folder() {
    let entries = names(&["[readme]NOTES.md"]);
    let e = find_template("lib/proj", &entries, "readme").unwrap();
    assert_eq!(e.tag, "readme");
    assert_eq!(e.display_name, "NOTES.md");
    assert_eq!(e.path, "lib/proj/[readme]NOTES.md");
}

#[test]
fn find_template_matches_tag_exactly() {
    let entries = names(&["plain.txt", "[readme2]a.md", "[Readme]b.md", "[readme]c.md", "[readme]d.md"]);
    let e = find_template("dir/", &entries, "readme").unwrap();
    assert_eq!(e.display_name, "c.md");
    assert_eq!(e.path, "dir/[readme]c.md");
    assert!(find_template("dir", &entries, "license").is_none());
    assert!(find_template("dir", &names(&[]), "readme").is_none());
}

#[test]
fn find_templates_collects_matches_and_missing_pages() {
    let entries = names(&["[a]one", "[b]two", "[a]three", "junk"]);
    let r = find_templates("p", &entries, &names(&["a", "c", "b"])).unwrap();
    let found: Vec<&str> = r.found.iter().map(|e| e.path.as_str()).collect();
    assert_eq!(found, vec!["p/[a]one", "p/[a]three", "p/[b]two"]);
    assert_eq!(r.missing, vec!["c".to_string()]);
}

#[test]
fn find_templates_without_pages_is_refused() {
    let entries = names(&["[a]one"]);
    assert_eq!(
        find_templates("p", &entries, &Vec::new()).err(),
        Some(TemplateError::NoPagesRequested)
    );
}

#[test]
fn parse_bindings_skips_malformed_lines() {
    let bs = parse_bindings("A = 1\nB=2\nBAD\nC=3=4\n");
    assert_eq!(pairs(&bs), vec![("A".to_string(), "1".to_string()), ("B".to_string(), "2".to_string())]);
}

#[test]
fn parse_bindings_trims_and_keeps_order() {
    let bs = parse_bindings("  K1\t=  v 1 \r\n\n=empty key\nK2=\nK1 = again");
    assert_eq!(
        pairs(&bs),
        vec![
            ("K1".to_string(), "v 1".to_string()),
            ("".to_string(), "empty key".to_string()),
            ("K2".to_string(), "".to_string()),
            ("K1".to_string(), "again".to_string()),
        ]
    );
    assert!(parse_bindings("").is_empty());
}

#[test]
fn list_bindings_of_project_variables() {
    let bs = list_bindings("NAME = Acme\nYEAR=2024");
    assert_eq!(
        pairs(&bs),
        vec![("NAME".to_string(), "Acme".to_string()), ("YEAR".to_string(), "2024".to_string())]
    );
}

#[test]
fn substitute_fills_each_binding() {
    let (out, applied) = substitute("Hello {{A}}, {{B}}!", &vec![binding("A", "World"), binding("B", "there")]);
    assert_eq!(out, "Hello World, there!");
    assert_eq!(applied, 2);
}

#[test]
fn substitute_replaces_every_occurrence() {
    let (out, applied) = substitute("{{A}} {{A}}", &vec![binding("A", "x")]);
    assert_eq!(out, "x x");
    assert_eq!(applied, 1);
}

#[test]
fn substitute_without_placeholders_is_identity() {
    let text = "no {placeholders} here {{ A }} {{a}}";
    let (out, applied) = substitute(text, &vec![binding("A", "x"), binding("B", "y")]);
    assert_eq!(out, text);
    assert_eq!(applied, 0);
}

#[test]
fn substitute_is_not_recursive_and_keeps_unknown() {
    let (out, applied) = substitute(
        "{{A}} {{B}} {{C}}",
        &vec![binding("B", "{{A}}"), binding("A", "1"), binding("A", "2")],
    );
    assert_eq!(out, "1 1 {{C}}");
    assert_eq!(applied, 2);
}

#[test]
fn round_trip_leaves_no_placeholder() {
    let bs = parse_bindings("NAME = Acme\nYEAR=2024\n");
    let (out, applied) = substitute("(c) {{YEAR}} {{NAME}}; {{NAME}} rules", &bs);
    assert_eq!(out, "(c) 2024 Acme; Acme rules");
    assert!(!out.contains("{{"));
    assert_eq!(applied, 2);
}

#[test]
fn replace_occurrences_counts_left_to_right() {
    let (out, n) = replace_occurrences("aaaa", "aa", "b");
    assert_eq!(out, "bb");
    assert_eq!(n, 2);
    let (out, n) = replace_occurrences("aaa", "aa", "b");
    assert_eq!(out, "ba");
    assert_eq!(n, 1);
    let (out, n) = replace_occurrences("xyz", "q", "b");
    assert_eq!(out, "xyz");
    assert_eq!(n, 0);
}

#[test]
fn join_path_adds_one_separator() {
    assert_eq!(join_path("lib", "proj"), "lib/proj");
    assert_eq!(join_path("lib/", "proj"), "lib/proj");
    assert_eq!(join_path("", "proj"), "proj");
    assert_eq!(join_path("lib", ""), "lib");
    assert_eq!(join_path("lib", "/abs/x"), "/abs/x");
}

#[test]
fn check_folder_and_file_report_each_case() {
    let dir = PathStatus { exists: true, is_dir: true, is_file: false };
    let file = PathStatus { exists: true, is_dir: false, is_file: true };
    let none = PathStatus { exists: false, is_dir: false, is_file: false };
    assert_eq!(check_folder("d", &dir), Ok(()));
    assert_eq!(check_folder("d", &file), Err(TemplateError::NotADirectory("d".to_string())));
    assert_eq!(check_folder("d", &none), Err(TemplateError::DirectoryNotFound("d".to_string())));
    assert_eq!(check_file("f", &file), Ok(()));
    assert_eq!(check_file("f", &dir), Err(TemplateError::NotAFile("f".to_string())));
    assert_eq!(check_file("f", &none), Err(TemplateError::FileNotFound("f".to_string())));
}

#[test]
fn error_messages_name_the_offender() {
    assert_eq!(TemplateError::DirectoryNotFound("x".to_string()).message(), "Folder does not exist: \"x\"");
    assert_eq!(TemplateError::NotADirectory("x".to_string()).message(), "Path is not a folder: \"x\"");
    assert_eq!(TemplateError::FileNotFound("x".to_string()).message(), "File does not exist: \"x\"");
    assert_eq!(TemplateError::NotAFile("x".to_string()).message(), "Path is not a file: \"x\"");
    assert_eq!(
        TemplateError::MalformedTemplateName("x".to_string()).message(),
        "Template name lacks a [tag]: x"
    );
    assert_eq!(
        TemplateError::FileNotFound("a \"b\"\\c".to_string()).message(),
        "File does not exist: \"a \\\"b\\\"\\\\c\""
    );
    assert_eq!(TemplateError::NoPagesRequested.message(), "No pages provided");
    assert_eq!(TemplateError::ConfigInvalid("x".to_string()).message(), "Config not valid: x");
}

#[test]
fn variables_file_name_is_exact() {
    assert!(is_variables_file("var"));
    assert!(!is_variables_file("var.txt"));
    assert!(!is_variables_file("Var"));
    assert!(!is_variables_file("va"));
}

#[test]
fn list_templates_reports_one_level_and_variables() {
    let listing = vec![
        DirListing {
            name: "proj".to_string(),
            is_dir: true,
            children: vec![
                ChildListing { name: "[readme]NOTES.md".to_string(), content: None },
                ChildListing { name: "var".to_string(), content: Some("NAME = Acme\nYEAR=2024".to_string()) },
            ],
        },
        DirListing { name: "loose.txt".to_string(), is_dir: false, children: vec![] },
    ];
    let report = list_templates(&listing).unwrap();
    assert_eq!(report.entries.len(), 2);
    assert_eq!(report.entries[0].name, "proj");
    assert_eq!(report.entries[0].children.len(), 2);
    assert_eq!(report.entries[0].children[0].name, "[readme]NOTES.md");
    assert!(report.entries[0].children[0].variables.is_none());
    let vars = report.entries[0].children[1].variables.as_ref().unwrap();
    assert_eq!(
        pairs(vars),
        vec![("NAME".to_string(), "Acme".to_string()), ("YEAR".to_string(), "2024".to_string())]
    );
    assert_eq!(report.entries[1].name, "loose.txt");
    assert!(report.entries[1].children.is_empty());
}

#[test]
fn list_templates_needs_variables_content() {
    let listing = vec![DirListing {
        name: "proj".to_string(),
        is_dir: true,
        children: vec![ChildListing { name: "var".to_string(), content: None }],
    }];
    assert_eq!(
        list_templates(&listing).err(),
        Some(TemplateError::FileNotFound("var".to_string()))
    );
}

#[test]
fn parse_bindings_trims_unicode_whitespace() {
    let bs = parse_bindings("\u{3000}KEY\u{00A0}=\u{2003}value\u{2028}\n");
    assert_eq!(pairs(&bs), vec![("KEY".to_string(), "value".to_string())]);
}

#[test]
fn round_trip_keeps_lone_braces_and_leaves_no_placeholder() {
    let bs = parse_bindings("NAME = Acme\nEMPTY =\n");
    let (out, applied) = substitute("fn {{NAME}}() { {{EMPTY}}{x} }{", &bs);
    assert_eq!(out, "fn Acme() { {x} }{");
    assert!(!out.contains("{{"));
    assert_eq!(applied, 2);
}
