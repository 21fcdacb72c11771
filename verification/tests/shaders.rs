use macroquad::material::shaders::{preprocess_shader, PreprocessorConfig};

#[test]
fn preprocessor_test() {
    let shader_string = r#"
#version blah blah

asd
asd

#include "hello.glsl"

qwe
"#;

    let preprocessed = r#"
#version blah blah

asd
asd

iii
jjj

qwe
"#;

    let result = preprocess_shader(
        shader_string,
        &PreprocessorConfig { includes: vec![("hello.glsl".to_string(), "iii\njjj".to_string())], ..Default::default() },
    );

    assert_eq!(result, preprocessed);
}

#[test]
fn source_without_directives_is_unchanged() {
    let config = PreprocessorConfig::default();
    assert_eq!(preprocess_shader("void main() {}\n", &config), "void main() {}\n");
}

#[test]
fn spaces_before_the_name_are_skipped_and_the_first_matching_include_wins() {
    let config = PreprocessorConfig {
        includes: vec![
            ("a".to_string(), "first".to_string()),
            ("a".to_string(), "second".to_string()),
        ],
    };
    assert_eq!(preprocess_shader("x #include    \"a\" y", &config), "x first y");
}

#[test]
fn each_directive_is_replaced_in_turn() {
    let config = PreprocessorConfig {
        includes: vec![("a".to_string(), "0123456789AB".to_string()), ("b".to_string(), "B".to_string())],
    };
    assert_eq!(preprocess_shader("#include \"a\"-#include \"b\"", &config), "0123456789AB-B");
}

#[test]
fn search_resumes_where_the_replaced_directive_ended() {
    // the search goes on from the old position of the closing quote, which a
    // short replacement has moved past the next directive
    let config = PreprocessorConfig {
        includes: vec![("a".to_string(), "AA".to_string()), ("b".to_string(), "B".to_string())],
    };
    assert_eq!(preprocess_shader("#include \"a\"-#include \"b\"", &config), "AA-#include \"b\"");
}
