use ty_unnecessary::display::{
    name_self_typevars, normalize_type_display, rewrite_outside_quotes, strip_markup, SelfOwner,
};

#[test]
fn star_markers_stripped_outside_literals() {
    assert_eq!(normalize_type_display("float*"), "float");
    assert_eq!(
        normalize_type_display("int | float* | complex*"),
        "int | complex".replace("int | complex", "int | float | complex")
    );
}

#[test]
fn literal_contents_untouched() {
    assert_eq!(
        normalize_type_display("Literal[\"a*b\"]"),
        "Literal[\"a*b\"]"
    );
    assert_eq!(
        normalize_type_display("Literal['def f(']"),
        "Literal['def f(']"
    );
    assert_eq!(
        normalize_type_display("Literal[\"x\"] | float*"),
        "Literal[\"x\"] | float"
    );
}

#[test]
fn module_display_rewritten() {
    assert_eq!(
        normalize_type_display("<module 'torch'>"),
        "Module(\"torch\")"
    );
    // the rewritten module name is quote-protected from later passes
    assert_eq!(normalize_type_display("<module 'a*b'>"), "Module(\"a*b\")");
}

#[test]
fn def_signatures_lose_their_name() {
    assert_eq!(normalize_type_display("def call() -> int"), "() -> int");
    assert_eq!(
        normalize_type_display("def f(x, y) -> None"),
        "(x, y) -> None"
    );
    // not a definition display: untouched
    assert_eq!(
        normalize_type_display("undef (x) -> int"),
        "undef (x) -> int"
    );
}

#[test]
fn star_without_a_name_stays() {
    assert_eq!(normalize_type_display("(*args) -> int"), "(*args) -> int");
    assert_eq!(normalize_type_display("*"), "*");
    assert_eq!(normalize_type_display("float**"), "float*");
    assert_eq!(normalize_type_display("é*"), "é*");
}

#[test]
fn unicode_names_of_signatures_are_dropped() {
    assert_eq!(normalize_type_display("def größe(x) -> int"), "(x) -> int");
    assert_eq!(normalize_type_display("def _f2(x) -> int"), "(x) -> int");
    assert_eq!(normalize_type_display("def a.b(x) -> int"), "def a.b(x) -> int");
    assert_eq!(normalize_type_display("def (x) -> int"), "def (x) -> int");
    assert_eq!(normalize_type_display("def f"), "def f");
}

#[test]
fn unterminated_modules_and_quotes_stay() {
    assert_eq!(normalize_type_display("<module 'a"), "<module 'a");
    assert_eq!(
        normalize_type_display("<module 'a'> | <module 'b"),
        "Module(\"a\") | <module 'b"
    );
    assert_eq!(normalize_type_display("float* | \"a*"), "float | \"a*");
}

#[test]
fn escaped_quotes_do_not_close_a_literal() {
    assert_eq!(
        normalize_type_display("Literal[\"a\\\"b*\"] | float*"),
        "Literal[\"a\\\"b*\"] | float"
    );
    assert_eq!(normalize_type_display("\"a\\"), "\"a\\");
}

#[test]
fn a_plain_display_stays() {
    assert_eq!(normalize_type_display("list[int | None]"), "list[int | None]");
    assert_eq!(normalize_type_display(""), "");
}

#[test]
fn a_plain_display_with_literals_stays() {
    for text in [
        "Literal[\"a*b\", 'def f(x)'] | (*args) -> None",
        "dict[Literal['def g(', \"float*\"], int]",
        "'it''s' | \"\\\"*\"",
        "<module 'open",
    ] {
        assert_eq!(normalize_type_display(text), text);
    }
}

#[test]
fn literals_keep_their_order() {
    assert_eq!(
        normalize_type_display("'a*' | float* | \"def f(\" | def g(x) -> Literal['c*', \"d\"]"),
        "'a*' | float | \"def f(\" | (x) -> Literal['c*', \"d\"]"
    );
    assert_eq!(
        normalize_type_display("'a*' | <module 'm*'> | int* | 'open*"),
        "'a*' | Module(\"m*\") | int | 'open*"
    );
}

#[test]
fn what_stays_keeps_its_order() {
    for text in ["def f(x: int*) -> float*", "a** | 'x*' | undef f(y) -> def g() -> b*"] {
        let out = normalize_type_display(text);
        let mut left = text.chars();
        assert!(out.chars().all(|c| left.any(|other| other == c)), "{out}");
    }
}

#[test]
fn only_the_spans_between_literals_are_rewritten() {
    let out = rewrite_outside_quotes("ab'cd'ef", |span| {
        span.iter().map(|c| c.to_ascii_uppercase()).collect()
    });
    assert_eq!(out, "AB'cd'EF");
}

fn owner(method: &str, class: &str) -> SelfOwner {
    SelfOwner {
        method: method.to_string(),
        class: class.to_string(),
    }
}

#[test]
fn self_types_are_named_after_their_class() {
    let owners = vec![owner("who", "K"), owner("clone", "L")];
    assert_eq!(name_self_typevars("Self@who", &owners), "Self@K");
    assert_eq!(
        name_self_typevars("(self) -> Self@clone | Self@who", &owners),
        "(self) -> Self@L | Self@K"
    );
    assert_eq!(name_self_typevars("Self@other", &owners), "Self@other");
    assert_eq!(name_self_typevars("Self@whom", &owners), "Self@whom");
    assert_eq!(name_self_typevars("MySelf@who", &owners), "MySelf@who");
}

#[test]
fn self_types_in_literals_stay() {
    let owners = vec![owner("who", "K")];
    assert_eq!(
        name_self_typevars("Literal[\"Self@who\"] | Self@who", &owners),
        "Literal[\"Self@who\"] | Self@K"
    );
}

#[test]
fn backticks_become_double_quotes() {
    assert_eq!(
        strip_markup("Cannot resolve import `torch`"),
        "Cannot resolve import \"torch\""
    );
    assert_eq!(strip_markup("plain"), "plain");
}
