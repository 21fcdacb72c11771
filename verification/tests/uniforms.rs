use macroquad::material::uniforms::{builtin_uniforms, UniformBlock, UniformType, UniformWrite};

fn block() -> UniformBlock {
    let mut u = builtin_uniforms();
    u.push(("color".to_string(), UniformType::Float4));
    u.push(("count".to_string(), UniformType::Int1));
    UniformBlock::new(u)
}

#[test]
fn uniform_sizes() {
    assert_eq!(UniformType::Float1.size(), 4);
    assert_eq!(UniformType::Int3.size(), 12);
    assert_eq!(UniformType::Mat4.size(), 64);
}

#[test]
fn uniforms_are_packed_after_the_builtins() {
    let b = block();
    // Projection 64 + Model 64 + _Time 16 + color 16 + count 4
    assert_eq!(b.data().len(), 164);
    assert!(b.data().iter().all(|x| *x == 0));
}

#[test]
fn set_uniform_writes_only_its_bytes() {
    let mut b = block();
    assert_eq!(b.set_uniform("count", &[1, 2, 3, 4]), UniformWrite::Written);
    assert_eq!(&b.data()[160..164], &[1, 2, 3, 4]);
    assert_eq!(b.set_uniform("color", &[9; 16]), UniformWrite::Written);
    assert_eq!(&b.data()[144..160], &[9; 16]);
    assert_eq!(&b.data()[160..164], &[1, 2, 3, 4]);
    assert!(b.data()[..144].iter().all(|x| *x == 0));
}

#[test]
fn unknown_names_and_wrong_sizes_write_nothing() {
    let mut b = block();
    assert_eq!(b.set_uniform("nothing", &[1, 2, 3, 4]), UniformWrite::UnknownName);
    assert_eq!(b.set_uniform("count", &[1, 2]), UniformWrite::WrongSize);
    assert!(b.data().iter().all(|x| *x == 0));
}
