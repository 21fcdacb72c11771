pub mod shaders;
pub mod uniforms;
