use rayca_pipe::{
    Category, EntryPoint, ParamType, ParameterLayout, Pipeline, ReflectedType, ShaderReflection,
    ShaderType, SubCategory,
};

fn layout(name: &str, ty: ReflectedType, category: Category, binding: u32, set: u32) -> ParameterLayout {
    ParameterLayout {
        name: name.to_string(),
        ty,
        category,
        binding_index: binding,
        binding_space: set,
        sub_categories: Vec::new(),
    }
}

fn varying(name: &str, elements: usize) -> ParameterLayout {
    layout(name, ReflectedType::Vector(elements), Category::VaryingInput, 0, 0)
}

fn reflection(
    path: &str,
    stage: ShaderType,
    entry_params: Vec<ParameterLayout>,
    globals: Vec<ParameterLayout>,
) -> ShaderReflection {
    ShaderReflection {
        path: path.to_string(),
        entry_points: vec![EntryPoint { stage, parameters: entry_params }],
        parameters: globals,
    }
}

#[test]
fn model() {
    let reflections = vec![
        reflection(
            "shaders/simple.vert.slang",
            ShaderType::Vertex,
            vec![varying("pos", 3)],
            Vec::new(),
        ),
        reflection("shaders/simple.frag.slang", ShaderType::Fragment, Vec::new(), Vec::new()),
    ];
    let pipeline = Pipeline::new("Test", reflections).unwrap();
    assert_eq!(pipeline.name, "Test");
    assert_eq!(pipeline.shaders.len(), 2);
    assert_eq!(pipeline.shaders[0].ty, ShaderType::Vertex);
    assert_eq!(pipeline.shaders[1].ty, ShaderType::Fragment);
}

#[test]
fn parse_pipeline() {
    let vert = reflection("test", ShaderType::Vertex, vec![varying("pos", 3)], Vec::new());
    let pipeline = Pipeline::builder().name("Shader").vert(vert).build().unwrap();
    assert_eq!(pipeline.name, "Shader");
}

#[test]
fn parse_params() {
    let vert = reflection(
        "test",
        ShaderType::Vertex,
        vec![varying("pos", 3), varying("uv", 2), varying("color", 4)],
        Vec::new(),
    );
    let pipeline = Pipeline::builder().name("Shader").vert(vert).build().unwrap();
    assert_eq!(pipeline.name, "Shader");

    assert!(!pipeline.shaders.is_empty());
    let shader = &pipeline.shaders[0];
    assert_eq!(shader.ty, ShaderType::Vertex);
    assert_eq!(shader.params.len(), 3);
    assert_eq!(shader.params[0].name, "pos");
    assert_eq!(shader.params[0].ty, ParamType::Vec3);
    assert_eq!(shader.params[1].name, "uv");
    assert_eq!(shader.params[1].ty, ParamType::Vec2);
    assert_eq!(shader.params[2].name, "color");
    assert_eq!(shader.params[2].ty, ParamType::Vec4);
}

fn mat4_buffer() -> ReflectedType {
    ReflectedType::ConstantBuffer(Box::new(ReflectedType::Matrix(4, 4)))
}

#[test]
fn parse_uniforms() {
    let vert = reflection(
        "test",
        ShaderType::Vertex,
        vec![varying("pos", 3), varying("uv", 2), varying("color", 4)],
        vec![
            layout("model", mat4_buffer(), Category::DescriptorTableSlot, 0, 0),
            layout("view_proj", mat4_buffer(), Category::DescriptorTableSlot, 0, 1),
        ],
    );
    let pipeline = Pipeline::builder().name("Shader").vert(vert).build().unwrap();
    assert_eq!(pipeline.name, "Shader");

    assert!(!pipeline.shaders.is_empty());
    let shader = &pipeline.shaders[0];
    assert_eq!(shader.ty, ShaderType::Vertex);
    assert_eq!(shader.params.len(), 3);
    assert_eq!(shader.params[0].name, "pos");
    assert_eq!(shader.params[0].ty, ParamType::Vec3);
    assert_eq!(shader.params[1].name, "uv");
    assert_eq!(shader.params[1].ty, ParamType::Vec2);
    assert_eq!(shader.params[2].name, "color");
    assert_eq!(shader.params[2].ty, ParamType::Vec4);
    assert_eq!(shader.uniforms[0].param.name, "model");
    assert_eq!(shader.uniforms[0].param.ty, ParamType::Mat4);
    assert_eq!(shader.uniforms[0].set, 0);
    assert_eq!(shader.uniforms[0].binding, 0);
    assert_eq!(shader.uniforms[1].param.name, "view_proj");
    assert_eq!(shader.uniforms[1].param.ty, ParamType::Mat4);
    assert_eq!(shader.uniforms[1].set, 1);
    assert_eq!(shader.uniforms[1].binding, 0);
}

#[test]
fn parse_multiple_uniforms() {
    let frag = reflection(
        "test",
        ShaderType::Fragment,
        Vec::new(),
        vec![
            layout(
                "color",
                ReflectedType::ConstantBuffer(Box::new(ReflectedType::Vector(4))),
                Category::DescriptorTableSlot,
                0,
                0,
            ),
            layout("tex_sampler", ReflectedType::Resource, Category::DescriptorTableSlot, 1, 0),
        ],
    );
    let pipeline = Pipeline::builder().name("Shader").vert(frag).build().unwrap();
    assert_eq!(pipeline.name, "Shader");

    assert!(!pipeline.shaders.is_empty());
    let shader = &pipeline.shaders[0];

    assert_eq!(shader.uniforms[0].param.ty, ParamType::Vec4);
    assert_eq!(shader.uniforms[1].param.ty, ParamType::SampledImage);
}

#[test]
fn parse_input_attachment() {
    let mut scene_color = layout("scene_color", ReflectedType::Resource, Category::Mixed, 0, 0);
    scene_color.sub_categories = vec![
        SubCategory { category: Category::DescriptorTableSlot, offset: 3, space: 2 },
        SubCategory { category: Category::Subpass, offset: 1, space: 0 },
    ];
    let frag = reflection("test", ShaderType::Fragment, Vec::new(), vec![scene_color]);
    let pipeline = Pipeline::builder().name("Shader").vert(frag).build().unwrap();
    assert_eq!(pipeline.name, "Shader");

    assert!(!pipeline.shaders.is_empty());
    let shader = &pipeline.shaders[0];

    assert_eq!(shader.uniforms[0].param.ty, ParamType::Image);
    assert_eq!(shader.uniforms[0].input_attachment_index, 1);
    assert_eq!(shader.uniforms[0].set, 2);
    assert_eq!(shader.uniforms[0].binding, 3);
}

#[test]
fn parse_constants() {
    let frag = reflection(
        "test",
        ShaderType::Fragment,
        Vec::new(),
        vec![layout("color", ReflectedType::Vector(4), Category::PushConstantBuffer, 0, 0)],
    );
    let pipeline = Pipeline::builder().name("Shader").vert(frag).build().unwrap();
    assert_eq!(pipeline.name, "Shader");

    assert!(!pipeline.shaders.is_empty());
    let shader = &pipeline.shaders[0];
    assert_eq!(shader.constants[0].ty, ParamType::Vec4);
}

#[test]
fn parse_complex_constants() {
    let push_constants = ReflectedType::Struct(vec![ReflectedType::Vector(4)]);
    let frag = reflection(
        "test",
        ShaderType::Fragment,
        Vec::new(),
        vec![layout(
            "constants",
            ReflectedType::ConstantBuffer(Box::new(push_constants)),
            Category::PushConstantBuffer,
            0,
            0,
        )],
    );
    let pipeline = Pipeline::builder().name("Shader").vert(frag).build().unwrap();
    assert_eq!(pipeline.name, "Shader");

    assert!(!pipeline.shaders.is_empty());
    let shader = &pipeline.shaders[0];
    assert_eq!(shader.constants[0].ty, ParamType::Struct(16));
}
