use kinematic::shader::{
    valid_binding_name, valid_identifier, valid_uniform_name, validate_binding_names,
    BindingError, ImageShader, MeshShader, ShaderIds,
};

#[test]
fn shader_values_reject_engine_names() {
    let uniforms = vec!["k_time".to_owned()];
    assert!(matches!(
        validate_binding_names(&uniforms, &vec![]),
        Err(BindingError::InvalidName(name)) if name == "k_time"
    ));
    let uniforms = vec!["amount".to_owned()];
    assert!(validate_binding_names(&uniforms, &vec![]).is_ok());
    let textures = vec!["amount".to_owned()];
    assert!(matches!(
        validate_binding_names(&uniforms, &textures),
        Err(BindingError::UniformAndTexture(name)) if name == "amount"
    ));
}

#[test]
fn binding_names_are_identifiers_without_the_engine_prefix() {
    assert!(valid_binding_name("amount"));
    assert!(valid_binding_name("_x9"));
    assert!(valid_binding_name("k"));
    assert!(!valid_binding_name("k_color"));
    assert!(!valid_binding_name("9lives"));
    assert!(!valid_binding_name(""));
    assert!(!valid_binding_name("a-b"));
    assert!(!valid_identifier("é"));
}

#[test]
fn uniform_names_exclude_engine_uniforms() {
    assert!(valid_uniform_name("amount"));
    assert!(valid_uniform_name("k_allowed_here"));
    assert!(!valid_uniform_name("modelMatrix"));
    assert!(!valid_uniform_name("hasUv"));
    assert!(valid_uniform_name("hasUvs"));
    assert!(!valid_uniform_name("two words"));
}

#[test]
fn shaders_receive_increasing_identifiers() {
    let mut ids = ShaderIds::new();
    let image = ImageShader::new("#version 330 core\nvoid main() {}".to_owned(), &mut ids);
    let fragment = MeshShader::fragment("void main() {}".to_owned(), &mut ids);
    let program = MeshShader::program("void main() {}".to_owned(), "void main() {}".to_owned(), &mut ids);
    assert_eq!((image.id, fragment.id, program.id), (1, 2, 3));
    assert!(fragment.vertex.is_none());
    assert_eq!(program.vertex.as_deref(), Some("void main() {}"));
}

#[test]
fn binding_names_report_the_first_invalid_uniform_before_any_texture() {
    let uniforms = vec!["amount".to_owned(), "k_speed".to_owned()];
    let textures = vec!["1mask".to_owned()];
    assert!(matches!(
        validate_binding_names(&uniforms, &textures),
        Err(BindingError::InvalidName(name)) if name == "k_speed"
    ));
    let uniforms = vec!["amount".to_owned(), "speed".to_owned()];
    assert!(matches!(
        validate_binding_names(&uniforms, &textures),
        Err(BindingError::InvalidName(name)) if name == "1mask"
    ));
    let textures = vec!["mask".to_owned(), "speed".to_owned()];
    assert!(matches!(
        validate_binding_names(&uniforms, &textures),
        Err(BindingError::UniformAndTexture(name)) if name == "speed"
    ));
}

#[test]
fn binding_errors_carry_the_original_messages() {
    assert_eq!(
        BindingError::InvalidName("k_time".to_owned()).message(),
        "Image shader binding `k_time` must be a GLSL identifier and cannot use the `k_` prefix."
    );
    assert_eq!(
        BindingError::UniformAndTexture("mask".to_owned()).message(),
        "Image shader binding `mask` cannot be both a uniform and a texture."
    );
}
