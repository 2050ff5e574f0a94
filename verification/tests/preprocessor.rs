use archi::preprocessor::{Error, Preprocessor, ShaderSource};

fn source(name: &str, body: &str) -> ShaderSource {
    ShaderSource::new(name, body)
}

fn sloc(i: &str) -> impl Iterator<Item = &str> {
    i.lines().filter(|&l| l != "")
}

#[test]
fn noop() {
    let mut p = Preprocessor::new();
    let body = "one\ntwo\nthree";
    let expanded = p.expand(&source("foo.glsl", body));

    assert_eq!(expanded.ok(), Some(body.to_string()));
}

#[test]
fn once() {
    let mut p = Preprocessor::new();
    p.add_header(source("test.glsl", "#define SUCCESS=1"));
    let expanded = p.expand(&source(
        "foo.glsl",
        "one\ntwo\n#pragma include \"test.glsl\"\nthree",
    ));

    let expected = "one\n\
                    two\n\
                    #define SUCCESS=1\n\
                    three\n";
    assert_eq!(expanded.ok(), Some(expected.to_string()));
}

#[test]
fn twice() {
    let mut p = Preprocessor::new();
    p.add_header(source("test.glsl", "#define SUCCESS=1"));
    let expanded = p.expand(&source(
        "foo.glsl",
        "one\n\
        two\n\
        #pragma include \"test.glsl\"\n\
        #pragma include \"test.glsl\"\n\
        three",
    ));

    let expected = "one\n\
                    two\n\
                    #define SUCCESS=1\n\
                    three\n";
    assert_eq!(expanded.ok(), Some(expected.to_string()));
}

#[test]
fn multiple() {
    let mut p = Preprocessor::new();
    p.add_header(source("alpha.glsl", "#define ALPHA=1"));
    p.add_header(source("beta.glsl", "#define BETA=1"));
    let expanded = p.expand(&source(
        "foo.glsl",
        "one\n\
            two\n\
            #pragma include \"alpha.glsl\"\n\
            #pragma include \"beta.glsl\"\n\
            three\n",
    ));

    let expected = "one\n\
                    two\n\
                    #define ALPHA=1\n\
                    #define BETA=1\n\
                    three\n";
    assert_eq!(expanded.ok(), Some(expected.to_string()));
}

#[test]
fn nested() {
    let mut p = Preprocessor::new();
    p.add_header(source(
        "alpha.glsl",
        "#define ALPHA=1\n#pragma include \"beta.glsl\"",
    ));
    p.add_header(source("beta.glsl", "#define BETA=1"));

    let expanded = p
        .expand(&source(
            "foo.glsl",
            "one\n\
            two\n\
            #pragma include \"alpha.glsl\"\n\
            three\n",
        ))
        .unwrap();

    let expected = "one\n\
                    two\n\
                    #define ALPHA=1\n\
                    #define BETA=1\n\
                    three\n";

    assert!(sloc(&expanded).eq(sloc(expected)));
}

#[test]
fn recursive() {
    let mut p = Preprocessor::new();
    p.add_header(source("self.glsl", "#pragma include \"self.glsl\""));

    let expanded = p
        .expand(&source("foo.glsl", "foo\n#pragma include \"self.glsl\""))
        .unwrap();

    let expected = "foo";

    assert!(sloc(&expanded).eq(sloc(expected)));
}

#[test]
fn directed_acyclic_graph() {
    let mut p = Preprocessor::new();
    p.add_header(source(
        "node.glsl",
        "#define NODE=1\n\
            #pragma include \"leaf.glsl\"",
    ));
    p.add_header(source("leaf.glsl", "#define LEAF=1"));

    let expanded = p
        .expand(&source(
            "foo.glsl",
            "one\n\
        two\n\
        #pragma include \"node.glsl\"\n\
        #pragma include \"leaf.glsl\"\n\
        three",
        ))
        .unwrap();

    let expected = "one\n\
                    two\n\
                    #define NODE=1\n\
                    #define LEAF=1\n\
                    three\n";

    assert!(sloc(&expanded).eq(sloc(expected)));
}

#[test]
fn not_found() {
    let mut p = Preprocessor::new();
    match p.expand(&source(
        "foo.glsl",
        "one\n\
        two\n\
        #pragma include \"test.glsl\"\n\
        three",
    )) {
        Ok(_) => panic!("expected NotFound error"),
        Err(e) => assert_eq!(e, Error::NotFound),
    };
}

#[test]
fn unquoted_name_is_a_format_error() {
    let mut p = Preprocessor::new();
    p.add_header(source("test.glsl", "#define SUCCESS=1"));
    match p.expand(&source("foo.glsl", "#pragma include test.glsl")) {
        Ok(_) => panic!("expected Format error"),
        Err(e) => assert_eq!(e, Error::Format),
    };
}

#[test]
fn two_tokens_are_a_format_error() {
    let mut p = Preprocessor::new();
    match p.expand(&source("foo.glsl", "#pragma include \"a.glsl\" extra")) {
        Ok(_) => panic!("expected Format error"),
        Err(e) => assert_eq!(e, Error::Format),
    };
}

#[test]
fn expansion_is_memoised_by_name() {
    let mut p = Preprocessor::new();
    p.add_header(source("test.glsl", "#define SUCCESS=1"));
    let first = p
        .expand(&source("foo.glsl", "#pragma include \"test.glsl\""))
        .unwrap();
    // A second source under the same name is answered from the memo.
    let second = p.expand(&source("foo.glsl", "entirely different")).unwrap();
    assert_eq!(first, second);
}

#[test]
fn header_expansion_keeps_trailing_newline() {
    let mut p = Preprocessor::new();
    p.add_header(source("nl.glsl", "#define NL=1\n"));
    let expanded = p
        .expand(&source("foo.glsl", "#pragma include \"nl.glsl\""))
        .unwrap();
    assert_eq!(expanded, "#define NL=1\n");
}
