use rayca_pipe::{
    classify_param, dedupe_bindings, sort_by_binding_index, BindMethod, Category, DescriptorType,
    EntryPoint, ModelError, Param, ParamRole, ParamType, ParameterLayout, Pipeline, PushMethod,
    PushRange, ReflectedType, Shader, ShaderReflection, ShaderType, SubCategory, TypeKind, Uniform,
    VkrType,
};

fn layout(name: &str, ty: ReflectedType, category: Category, binding: u32, set: u32) -> ParameterLayout {
    ParameterLayout {
        name: name.to_string(),
        ty,
        category,
        binding_index: binding,
        binding_space: set,
        sub_categories: Vec::new(),
    }
}

fn reflection(
    path: &str,
    stage: ShaderType,
    entry_params: Vec<ParameterLayout>,
    globals: Vec<ParameterLayout>,
) -> ShaderReflection {
    ShaderReflection {
        path: path.to_string(),
        entry_points: vec![EntryPoint { stage, parameters: entry_params }],
        parameters: globals,
    }
}

fn uniform(name: &str, ty: ParamType, set: u32, binding: u32) -> Uniform {
    Uniform::new(Param::new(name.to_string(), ty), set, binding, 0)
}

fn slots(us: &[Uniform]) -> Vec<(String, u32, u32)> {
    us.iter().map(|u| (u.param.name.clone(), u.set, u.binding)).collect()
}

#[test]
fn vec3_is_padded_to_sixteen_bytes() {
    assert_eq!(ParamType::from_type(&ReflectedType::Vector(3)).unwrap(), ParamType::Vec3);
    assert_eq!(ParamType::Vec3.get_size(), Some(16));
    assert_eq!(ParamType::get_type_size(&ReflectedType::Vector(3)).unwrap(), 16);
    let wrapped = ReflectedType::ConstantBuffer(Box::new(ReflectedType::Vector(3)));
    assert_eq!(ParamType::from_type(&wrapped).unwrap(), ParamType::Vec3);
}

#[test]
fn fixed_sizes() {
    assert_eq!(ParamType::Vec2.get_size(), Some(8));
    assert_eq!(ParamType::Vec4.get_size(), Some(16));
    assert_eq!(ParamType::Mat3.get_size(), Some(36));
    assert_eq!(ParamType::Mat4.get_size(), Some(64));
    assert_eq!(ParamType::Struct(48).get_size(), Some(48));
    assert_eq!(ParamType::SampledImage.get_size(), None);
    assert_eq!(ParamType::Image.get_size(), None);
    assert_eq!(ParamType::Sampler.get_size(), None);
    assert_eq!(ParamType::Struct(0).get_size(), None);
}

#[test]
fn struct_sizes_round_up_to_sixteen() {
    let one_vec4 = ReflectedType::Struct(vec![ReflectedType::Vector(4)]);
    assert_eq!(ParamType::from_type(&one_vec4).unwrap(), ParamType::Struct(16));
    let one_vec2 = ReflectedType::Struct(vec![ReflectedType::Vector(2)]);
    assert_eq!(ParamType::from_type(&one_vec2).unwrap(), ParamType::Struct(16));
    let vec3_vec2 = ReflectedType::Struct(vec![ReflectedType::Vector(3), ReflectedType::Vector(2)]);
    assert_eq!(ParamType::from_type(&vec3_vec2).unwrap(), ParamType::Struct(32));
    let mat3_vec2 = ReflectedType::Struct(vec![ReflectedType::Matrix(3, 3), ReflectedType::Vector(2)]);
    assert_eq!(ParamType::get_type_size(&mat3_vec2).unwrap(), 48);
    let nested = ReflectedType::Struct(vec![
        ReflectedType::Struct(vec![ReflectedType::Vector(2)]),
        ReflectedType::Matrix(4, 4),
    ]);
    assert_eq!(ParamType::from_type(&nested).unwrap(), ParamType::Struct(80));
    let empty = ReflectedType::Struct(Vec::new());
    assert_eq!(ParamType::from_type(&empty).unwrap(), ParamType::Struct(0));
}

#[test]
fn unsupported_types() {
    assert_eq!(
        ParamType::from_type(&ReflectedType::Vector(5)),
        Err(ModelError::UnsupportedType(TypeKind::Vector, 5, 0))
    );
    assert_eq!(
        ParamType::from_type(&ReflectedType::Matrix(2, 3)),
        Err(ModelError::UnsupportedType(TypeKind::Matrix, 2, 3))
    );
    assert_eq!(
        ParamType::from_type(&ReflectedType::Other(TypeKind::Scalar)),
        Err(ModelError::UnsupportedType(TypeKind::Scalar, 0, 0))
    );
    assert_eq!(ParamType::from_type(&ReflectedType::SamplerState), Ok(ParamType::SampledImage));
    assert_eq!(
        ParamType::get_type_size(&ReflectedType::Resource),
        Err(ModelError::UnsupportedType(TypeKind::Resource, 0, 0))
    );
}

#[test]
fn struct_with_unsized_field_is_unresolved() {
    let with_texture = ReflectedType::Struct(vec![ReflectedType::Vector(4), ReflectedType::Resource]);
    assert_eq!(ParamType::from_type(&with_texture), Err(ModelError::StructSizeUnresolved));
    let with_bad_vector = ReflectedType::Struct(vec![ReflectedType::Vector(7)]);
    assert_eq!(ParamType::get_type_size(&with_bad_vector), Err(ModelError::StructSizeUnresolved));
}

#[test]
fn sampler_merges_into_binding_at_same_slot() {
    let input = vec![
        uniform("color", ParamType::Vec4, 0, 1),
        uniform("tex", ParamType::SampledImage, 0, 1),
    ];
    let out = dedupe_bindings(&input);
    assert_eq!(out.len(), 1);
    assert_eq!(out[0].set, 0);
    assert_eq!(out[0].binding, 1);
    assert_eq!(out[0].param.ty, ParamType::Vec4);
}

#[test]
fn sampler_merge_keeps_free_samplers_and_sorts() {
    let input = vec![
        uniform("b", ParamType::SampledImage, 0, 3),
        uniform("a", ParamType::Mat4, 0, 2),
        uniform("c", ParamType::SampledImage, 0, 3),
        uniform("d", ParamType::SampledImage, 1, 2),
        uniform("e", ParamType::Vec4, 0, 0),
    ];
    let out = dedupe_bindings(&input);
    assert_eq!(
        slots(&out),
        vec![
            ("e".to_string(), 0, 0),
            ("a".to_string(), 0, 2),
            ("d".to_string(), 1, 2),
            ("b".to_string(), 0, 3),
        ]
    );
}

#[test]
fn dedupe_twice_changes_nothing() {
    let input = vec![
        uniform("t", ParamType::SampledImage, 0, 2),
        uniform("m", ParamType::Mat4, 1, 0),
        uniform("s", ParamType::SampledImage, 1, 0),
        uniform("v", ParamType::Vec4, 0, 1),
        uniform("u", ParamType::SampledImage, 0, 2),
    ];
    let once = dedupe_bindings(&input);
    let twice = dedupe_bindings(&once);
    assert_eq!(slots(&once), slots(&twice));
    assert_eq!(once.len(), 3);
}

#[test]
fn dedupe_is_independent_of_input_order() {
    let a = vec![
        uniform("color", ParamType::Vec4, 0, 1),
        uniform("tex", ParamType::SampledImage, 0, 1),
        uniform("model", ParamType::Mat4, 1, 0),
        uniform("albedo", ParamType::SampledImage, 0, 4),
    ];
    let b = vec![
        uniform("albedo", ParamType::SampledImage, 0, 4),
        uniform("tex", ParamType::SampledImage, 0, 1),
        uniform("model", ParamType::Mat4, 1, 0),
        uniform("color", ParamType::Vec4, 0, 1),
    ];
    let ra = dedupe_bindings(&a);
    let rb = dedupe_bindings(&b);
    assert_eq!(slots(&ra), slots(&rb));
    assert_eq!(
        slots(&ra),
        vec![
            ("model".to_string(), 1, 0),
            ("color".to_string(), 0, 1),
            ("albedo".to_string(), 0, 4),
        ]
    );
}

#[test]
fn stable_sort_keeps_order_of_equal_bindings() {
    let input = vec![
        uniform("x", ParamType::Vec4, 2, 5),
        uniform("y", ParamType::Vec4, 0, 1),
        uniform("z", ParamType::Vec4, 1, 5),
        uniform("w", ParamType::Vec4, 0, 5),
    ];
    let out = sort_by_binding_index(input);
    let names: Vec<String> = out.iter().map(|u| u.param.name.clone()).collect();
    assert_eq!(names, vec!["y", "x", "z", "w"]);
}

fn two_stage_pipeline() -> Pipeline {
    let vert = reflection(
        "shaders/simple.vert.slang",
        ShaderType::Vertex,
        vec![layout("pos", ReflectedType::Vector(3), Category::VaryingInput, 0, 0)],
        vec![
            layout(
                "model",
                ReflectedType::ConstantBuffer(Box::new(ReflectedType::Matrix(4, 4))),
                Category::DescriptorTableSlot,
                0,
                0,
            ),
            layout(
                "viewProj",
                ReflectedType::ConstantBuffer(Box::new(ReflectedType::Matrix(4, 4))),
                Category::DescriptorTableSlot,
                0,
                1,
            ),
        ],
    );
    let frag = reflection(
        "shaders/simple.frag.slang",
        ShaderType::Fragment,
        Vec::new(),
        vec![
            layout(
                "color",
                ReflectedType::ConstantBuffer(Box::new(ReflectedType::Vector(4))),
                Category::DescriptorTableSlot,
                1,
                0,
            ),
            layout("texSampler", ReflectedType::SamplerState, Category::DescriptorTableSlot, 1, 0),
        ],
    );
    Pipeline::builder().name("Main").vert(vert).frag(frag).build().unwrap()
}

#[test]
fn end_to_end_two_stage_pipeline() {
    let pipeline = two_stage_pipeline();
    let layouts = pipeline.get_set_layouts();
    assert_eq!(layouts.len(), 2);
    let set0: Vec<(u32, DescriptorType, ShaderType)> =
        layouts[0].bindings.iter().map(|b| (b.binding, b.descriptor_type, b.stage)).collect();
    assert_eq!(
        set0,
        vec![
            (0, DescriptorType::Uniform, ShaderType::Vertex),
            (1, DescriptorType::Uniform, ShaderType::Fragment),
        ]
    );
    let set1: Vec<(u32, ShaderType)> =
        layouts[1].bindings.iter().map(|b| (b.binding, b.stage)).collect();
    assert_eq!(set1, vec![(0, ShaderType::Vertex)]);

    let binds = pipeline.get_bind_methods().unwrap();
    assert_eq!(binds.len(), 2);
    let b0: Vec<(String, ParamType, u32)> =
        binds[0].uniforms.iter().map(|u| (u.param.name.clone(), u.param.ty, u.binding)).collect();
    assert_eq!(
        b0,
        vec![("model".to_string(), ParamType::Mat4, 0), ("color".to_string(), ParamType::Vec4, 1)]
    );
    let b1: Vec<(String, ParamType)> =
        binds[1].uniforms.iter().map(|u| (u.param.name.clone(), u.param.ty)).collect();
    assert_eq!(b1, vec![("viewProj".to_string(), ParamType::Mat4)]);

    assert!(pipeline.get_push_ranges().is_empty());
    assert!(pipeline.get_push_methods().is_empty());
}

#[test]
fn set_layout_bindings_sorted_across_stages() {
    let pipeline = two_stage_pipeline();
    let bindings = pipeline.get_set_layout_bindings(0);
    let got: Vec<u32> = bindings.iter().map(|b| b.binding).collect();
    assert_eq!(got, vec![0, 1]);
    assert!(pipeline.get_set_layout_bindings(7).is_empty());
    assert_eq!(pipeline.shaders[0].get_descriptor_max(), 1);
    assert_eq!(pipeline.shaders[1].get_descriptor_max(), 0);
}

#[test]
fn push_constant_scenario() {
    let vert = reflection(
        "v",
        ShaderType::Vertex,
        vec![layout("pos", ReflectedType::Vector(3), Category::VaryingInput, 0, 0)],
        Vec::new(),
    );
    let frag = reflection(
        "f",
        ShaderType::Fragment,
        Vec::new(),
        vec![layout("color", ReflectedType::Vector(4), Category::PushConstantBuffer, 0, 0)],
    );
    let pipeline = Pipeline::builder().name("Push").vert(vert).frag(frag).build().unwrap();
    let ranges = pipeline.get_push_ranges();
    assert_eq!(ranges, vec![PushRange::new(ParamType::Vec4, ShaderType::Fragment)]);
    let methods: Vec<PushMethod> = pipeline.get_push_methods();
    assert_eq!(methods.len(), 1);
    assert_eq!(methods[0].name, "color");
    assert_eq!(methods[0].ty, ParamType::Vec4);
    assert_eq!(methods[0].stage, ShaderType::Fragment);
    assert!(pipeline.get_set_layouts().is_empty());
    assert!(pipeline.get_bind_methods().unwrap().is_empty());
}

#[test]
fn unsupported_category_fails_whole_build() {
    let vert = reflection(
        "shaders/simple.vert.slang",
        ShaderType::Vertex,
        vec![layout("pos", ReflectedType::Vector(3), Category::VaryingInput, 0, 0)],
        Vec::new(),
    );
    let frag = reflection(
        "shaders/odd.frag.slang",
        ShaderType::Fragment,
        vec![layout("payload", ReflectedType::Vector(4), Category::RayPayload, 0, 0)],
        Vec::new(),
    );
    let result = Pipeline::new("Broken", vec![vert, frag]);
    let err = result.unwrap_err();
    assert_eq!(err.error, ModelError::UnsupportedCategory(Category::RayPayload));
    assert_eq!(err.path, "shaders/odd.frag.slang");
    assert_eq!(err.parameter, Some("payload".to_string()));
}

#[test]
fn varying_input_at_program_scope_is_unsupported() {
    let p = layout("pos", ReflectedType::Vector(3), Category::VaryingInput, 0, 0);
    assert!(matches!(
        classify_param(&p, false),
        Err(ModelError::UnsupportedCategory(Category::VaryingInput))
    ));
    assert!(matches!(classify_param(&p, true), Ok(ParamRole::Input(_))));
}

#[test]
fn unsupported_sub_category() {
    let mut p = layout("odd", ReflectedType::Resource, Category::Mixed, 0, 0);
    p.sub_categories = vec![
        SubCategory { category: Category::DescriptorTableSlot, offset: 2, space: 1 },
        SubCategory { category: Category::UnorderedAccess, offset: 0, space: 0 },
    ];
    assert!(matches!(
        classify_param(&p, false),
        Err(ModelError::UnsupportedSubCategory(Category::UnorderedAccess))
    ));
}

#[test]
fn mixed_without_subpass_keeps_type() {
    let mut p = layout("tex", ReflectedType::Resource, Category::Mixed, 0, 0);
    p.sub_categories = vec![SubCategory { category: Category::DescriptorTableSlot, offset: 4, space: 3 }];
    match classify_param(&p, false) {
        Ok(ParamRole::Binding(u)) => {
            assert_eq!(u.param.ty, ParamType::SampledImage);
            assert_eq!((u.set, u.binding, u.input_attachment_index), (3, 4, 0));
        }
        _ => panic!("expected a binding"),
    }
}

#[test]
fn type_error_names_parameter() {
    let frag = reflection(
        "f",
        ShaderType::Fragment,
        Vec::new(),
        vec![layout("weird", ReflectedType::Vector(5), Category::PushConstantBuffer, 0, 0)],
    );
    let err = Shader::from_reflection(&frag).unwrap_err();
    assert_eq!(err.error, ModelError::UnsupportedType(TypeKind::Vector, 5, 0));
    assert_eq!(err.parameter, Some("weird".to_string()));
}

#[test]
fn multiple_entry_points_rejected() {
    let mut r = reflection("two", ShaderType::Vertex, Vec::new(), Vec::new());
    r.entry_points.push(EntryPoint { stage: ShaderType::Fragment, parameters: Vec::new() });
    let err = Shader::from_reflection(&r).unwrap_err();
    assert_eq!(err.error, ModelError::MultipleEntryPoints);
    assert_eq!(err.parameter, None);
    let none = ShaderReflection { path: "none".to_string(), entry_points: Vec::new(), parameters: Vec::new() };
    assert_eq!(Shader::from_reflection(&none).unwrap_err().error, ModelError::MultipleEntryPoints);
}

#[test]
fn empty_set_between_used_sets_is_an_error() {
    let vert = reflection(
        "v",
        ShaderType::Vertex,
        Vec::new(),
        vec![
            layout("a", ReflectedType::Matrix(4, 4), Category::Uniform, 0, 0),
            layout("b", ReflectedType::Matrix(4, 4), Category::Uniform, 0, 2),
        ],
    );
    let pipeline = Pipeline::new("Gap", vec![vert]).unwrap();
    assert_eq!(pipeline.get_set_layouts().len(), 3);
    assert!(pipeline.get_set_layouts()[1].bindings.is_empty());
    assert!(matches!(pipeline.get_bind_methods(), Err(ModelError::EmptyBindingSet)));
}

#[test]
fn bind_method_params_and_write_sets() {
    let method = BindMethod {
        uniforms: vec![
            uniform("model", ParamType::Mat4, 0, 0),
            uniform("albedo", ParamType::SampledImage, 0, 1),
            Uniform::new(Param::new("scene".to_string(), ParamType::Image), 0, 2, 1),
        ],
    };
    let params = method.get_method_params();
    let got: Vec<(String, ParamType, VkrType)> =
        params.iter().map(|p| (p.name.clone(), p.ty, VkrType::from(p.ty))).collect();
    assert_eq!(
        got,
        vec![
            ("model".to_string(), ParamType::Mat4, VkrType::Buffer),
            ("albedo".to_string(), ParamType::SampledImage, VkrType::Texture),
            ("scene".to_string(), ParamType::Image, VkrType::Texture),
        ]
    );
    let writes = method.get_write_sets();
    let got: Vec<(u32, DescriptorType, String)> =
        writes.iter().map(|w| (w.binding, w.descriptor_type, w.info.name.clone())).collect();
    assert_eq!(
        got,
        vec![
            (0, DescriptorType::Uniform, "model".to_string()),
            (1, DescriptorType::CombinedSampler, "albedo".to_string()),
            (2, DescriptorType::InputAttachment, "scene".to_string()),
        ]
    );
}

#[test]
fn layout_binding_of_uniform() {
    let u = uniform("tex", ParamType::SampledImage, 3, 7);
    let b = u.get_set_layout_binding(ShaderType::Fragment);
    assert_eq!(b.binding, 7);
    assert_eq!(b.descriptor_type, DescriptorType::CombinedSampler);
    assert_eq!(b.stage, ShaderType::Fragment);
}

#[test]
fn shader_bind_methods_append_per_set() {
    let shader = Shader::new(
        ShaderType::Vertex,
        "v".to_string(),
        Vec::new(),
        vec![uniform("a", ParamType::Mat4, 1, 0), uniform("b", ParamType::Vec4, 0, 3)],
        Vec::new(),
    );
    let mut methods = vec![BindMethod { uniforms: Vec::new() }, BindMethod { uniforms: Vec::new() }];
    shader.get_bind_methods(&mut methods);
    assert_eq!(methods[0].uniforms.len(), 1);
    assert_eq!(methods[0].uniforms[0].param.name, "b");
    assert_eq!(methods[1].uniforms[0].param.name, "a");
    let set1 = shader.get_set_layout_bindings(1);
    assert_eq!(set1.len(), 1);
    assert_eq!(set1[0].binding, 0);
}
