use gluon_core::base::strings::{
    contains, count_leading, count_trailing, ends_with_char, replace, starts_with_char, str_eq,
    trim_end_matches, trim_matches, trim_start_matches, CharClass,
};
use gluon_core::base::symbol::{components, last_of, module_of, resolved_symbol, Symbol};

#[test]
fn trims_characters_of_a_class() {
    assert_eq!(trim_start_matches("@@a@", CharClass::only('@')), "a@");
    assert_eq!(trim_end_matches("a.b..", CharClass::only('.')), "a.b");
    assert_eq!(trim_matches("xxaxbxx", CharClass::only('x')), "axb");
    assert_eq!(trim_matches("import(\"a\")", CharClass::all_but('"')), "\"a\"");
    assert_eq!(trim_matches("xxx", CharClass::only('x')), "");
    assert_eq!(trim_matches("", CharClass::only('x')), "");
}

#[test]
fn counts_leading_and_trailing_characters() {
    assert_eq!(count_leading("aab", CharClass::only('a')), 2);
    assert_eq!(count_leading("aab", CharClass::all_but('b')), 2);
    assert_eq!(count_trailing("abb", CharClass::only('b')), 2);
    assert_eq!(count_trailing("", CharClass::only('b')), 0);
    assert_eq!(count_leading("ééa", CharClass::only('é')), 2);
}

#[test]
fn finds_text() {
    assert!(contains("global_inner(\"a\")", "inner"));
    assert!(contains("import(\"a\")", "import"));
    assert!(!contains("impor(\"a\")", "import"));
    assert!(contains("abc", ""));
    assert!(contains("", ""));
    assert!(!contains("ab", "abc"));
    assert!(contains("xximport", "import"));
}

#[test]
fn compares_and_replaces() {
    assert!(str_eq("a", "a"));
    assert!(!str_eq("a", "b"));
    assert!(starts_with_char("@a", '@'));
    assert!(!starts_with_char("", '@'));
    assert!(ends_with_char("(+)", ')'));
    assert!(!ends_with_char("", ')'));
    assert_eq!(replace("std.types.Bool", '.', "/"), "std/types/Bool");
    assert_eq!(replace("", '.', "/"), "");
    assert_eq!(replace("a.b.", '.', "::"), "a::b::");
    assert_eq!(replace("a.b", '.', ""), "ab");
    assert_eq!(replace("..", '.', "é."), "é.é.");
}

#[test]
fn symbol_names() {
    let global = Symbol::from("@std.prelude");
    assert!(global.is_global());
    assert_eq!(global.definition_name(), "std.prelude");
    let local = Symbol::from("x");
    assert!(!local.is_global());
    assert_eq!(local.definition_name(), "x");
    assert!(local.name_eq(&Symbol::from("x")));
    assert!(!local.name_eq(&global));
    assert_eq!(resolved_symbol("main"), Symbol::from("@main"));
    assert_eq!(local.clone(), local);
}

#[test]
fn dotted_names() {
    assert_eq!(module_of("x.y.z"), "x.y");
    assert_eq!(module_of("x"), "");
    assert_eq!(module_of(""), "");
    assert_eq!(module_of("x.y."), "x.y");
    assert_eq!(module_of("x..y"), "x");
    assert_eq!(last_of("x.y.z"), "z");
    assert_eq!(last_of("x"), "x");
    assert_eq!(last_of("x."), "");
    assert_eq!(components("x.y.z"), vec!["x", "y", "z"]);
    assert_eq!(components(""), Vec::<String>::new());
    assert_eq!(components("x."), vec!["x"]);
    assert_eq!(components(".x"), vec!["", "x"]);
    assert_eq!(components("a.(+)"), vec!["a", "(+)"]);
}
