use glam::{Mat4, Vec3, Vec4};
use scene_lang::config::{parse_camera, CameraConfig, ConfigError, ConfigValue, FovDegrees};
use scene_lang::queues::{select_queue_families, QueueFamilyCaps, QueueFamilyInfo};
use scene_lang::severity::{log_level_of, LogLevel};
use scene_lang::shader_type::{parse_type_str, ShaderType, TypeError};
use scene_lang::transform::{
    compile_commands, compile_transform, plan_from_commands, Command, CommandKind, TransformError,
    TransformPlan,
};
use scene_lang::type_lexer::{LexError, Token, TokenIter};

fn command(kind: CommandKind, args: &[&str]) -> Command {
    Command { kind, args: args.iter().map(|a| a.to_string()).collect() }
}

fn identity_plan(ops: Vec<Command>) -> TransformPlan {
    TransformPlan { base: command(CommandKind::Identity, &[]), ops }
}

fn vec3_arg(args: &[String], at: usize) -> Vec3 {
    Vec3::new(args[at].parse().unwrap(), args[at + 1].parse().unwrap(), args[at + 2].parse().unwrap())
}

#[test]
fn parse_lookat() {
    let plan = compile_transform(
        "
        # this is a comment that should be ignored
        lookat 3 2 1   0 0 0   0 0 1
        ",
    )
    .expect("failed to parse");
    assert_eq!(plan.base.kind, CommandKind::LookAt);
    assert!(plan.ops.is_empty());
    let args = &plan.base.args;
    let camera_mat = Mat4::look_at_lh(vec3_arg(args, 0), vec3_arg(args, 3), vec3_arg(args, 6));

    let point = Vec4::new(0f32, 0f32, 0f32, 1f32);
    let point_cam = camera_mat * point;

    let eye = Vec3::new(3f32, 2f32, 1f32);
    let dist = eye.dot(eye).sqrt();

    assert!((point_cam.z - dist) < 2e-4, "point_cam.z: {}, ||eye - origin||: {}", point_cam.z, dist);
}

#[test]
fn parse_simple_types() {
    assert_eq!(parse_type_str("float"), Ok(ShaderType::Float));
    assert_eq!(parse_type_str("vec3"), Ok(ShaderType::Vec3));
    assert_eq!(parse_type_str("int"), Ok(ShaderType::Int));
    assert_eq!(parse_type_str("  uint\n"), Ok(ShaderType::UInt));
}

#[test]
fn parse_array_types() {
    assert_eq!(parse_type_str("[float;4]"), Ok(ShaderType::Array(Box::new(ShaderType::Float), 4)));
    assert_eq!(
        parse_type_str("[[int;2];3]"),
        Ok(ShaderType::Array(Box::new(ShaderType::Array(Box::new(ShaderType::Int), 2)), 3))
    );
    assert_eq!(
        parse_type_str(" [ vec3 ; 18446744073709551615 ] "),
        Ok(ShaderType::Array(Box::new(ShaderType::Vec3), u64::MAX))
    );
}

#[test]
fn unknown_typename_is_named() {
    assert_eq!(parse_type_str("double"), Err(TypeError::UnknownTypename("double".to_string())));
    assert_eq!(parse_type_str("[double;2]"), Err(TypeError::UnknownTypename("double".to_string())));
}

#[test]
fn missing_right_bracket() {
    assert_eq!(parse_type_str("[float;4"), Err(TypeError::ExpectedRightBracket));
    assert_eq!(parse_type_str("[float;4;"), Err(TypeError::ExpectedRightBracket));
}

#[test]
fn array_delimiter_errors() {
    assert_eq!(parse_type_str("[float 4]"), Err(TypeError::ExpectedSemicolon));
    assert_eq!(parse_type_str("[float;int]"), Err(TypeError::ExpectedLength));
    assert_eq!(parse_type_str("[float;"), Err(TypeError::ExpectedLength));
    assert_eq!(parse_type_str("["), Err(TypeError::IncompleteType));
}

#[test]
fn bad_type_starts() {
    assert_eq!(parse_type_str(""), Err(TypeError::IncompleteType));
    assert_eq!(parse_type_str("   "), Err(TypeError::IncompleteType));
    assert_eq!(parse_type_str("4"), Err(TypeError::StartsWithInteger(4)));
    assert_eq!(parse_type_str("]"), Err(TypeError::StartsWithRightBracket));
    assert_eq!(parse_type_str(";"), Err(TypeError::StartsWithSemicolon));
}

#[test]
fn lexer_errors_pass_through() {
    assert_eq!(
        parse_type_str("@"),
        Err(TypeError::Lexer(LexError::UnexpectedChar { pos: 0, ch: '@' }))
    );
    assert_eq!(
        parse_type_str("[float;18446744073709551616]"),
        Err(TypeError::Lexer(LexError::IntegerTooLarge { pos: 7 }))
    );
    assert_eq!(
        parse_type_str("[float;4}"),
        Err(TypeError::Lexer(LexError::UnexpectedChar { pos: 8, ch: '}' }))
    );
}

#[test]
fn token_stream() {
    let mut tokens = TokenIter::new(" [vec3; 12] ");
    assert_eq!(tokens.peek(), Some(Token::LSqBracket));
    assert_eq!(tokens.next(), Some(Token::LSqBracket));
    assert_eq!(tokens.next(), Some(Token::Typename("vec3".to_string())));
    assert_eq!(tokens.next(), Some(Token::Semicolon));
    assert_eq!(tokens.next(), Some(Token::Integer(12)));
    assert_eq!(tokens.next(), Some(Token::RSqBracket));
    assert_eq!(tokens.next(), None);
}

#[test]
fn token_stream_ends_after_error() {
    let mut tokens = TokenIter::new("a ? b");
    assert_eq!(tokens.next(), Some(Token::Typename("a".to_string())));
    assert_eq!(tokens.next(), Some(Token::LexerError(LexError::UnexpectedChar { pos: 2, ch: '?' })));
    assert_eq!(tokens.peek(), None);
    assert_eq!(tokens.next(), None);
}

#[test]
fn identity_then_translate() {
    let plan = compile_transform("identity\ntranslate 1 0 0").unwrap();
    assert_eq!(plan, identity_plan(vec![command(CommandKind::Translate, &["1", "0", "0"])]));
}

#[test]
fn translations_keep_their_order() {
    let plan = compile_transform("translate 1 0 0\ntranslate 0 1 0").unwrap();
    assert_eq!(
        plan,
        identity_plan(vec![
            command(CommandKind::Translate, &["1", "0", "0"]),
            command(CommandKind::Translate, &["0", "1", "0"]),
        ])
    );
}

#[test]
fn later_commands_compose_after_identity() {
    let plan = compile_transform("scale 2 2 2\nidentity\nrotate 90 0 0 1\nscale 1 2 3").unwrap();
    assert_eq!(
        plan,
        identity_plan(vec![
            command(CommandKind::Rotate, &["90", "0", "0", "1"]),
            command(CommandKind::Scale, &["1", "2", "3"]),
        ])
    );
}

#[test]
fn lookat_discards_prior_state() {
    let alone = compile_transform("lookat 3 2 1 0 0 0 0 0 1").unwrap();
    let after = compile_transform("translate 5 0 0\nlookat 3 2 1 0 0 0 0 0 1").unwrap();
    assert_eq!(alone, after);
    assert_eq!(
        alone,
        TransformPlan {
            base: command(CommandKind::LookAt, &["3", "2", "1", "0", "0", "0", "0", "0", "1"]),
            ops: vec![],
        }
    );
}

#[test]
fn argument_count_is_checked() {
    assert_eq!(
        compile_transform("translate 1 2 3 4"),
        Err(TransformError::ExtraArguments(CommandKind::Translate))
    );
    assert_eq!(compile_transform("scale 1 2"), Err(TransformError::MissingArgument(CommandKind::Scale)));
    assert_eq!(
        compile_transform("rotate 1 2 3 4 5"),
        Err(TransformError::ExtraArguments(CommandKind::Rotate))
    );
    assert_eq!(
        compile_transform("lookat 1 2 3 4 5 6 7 8"),
        Err(TransformError::MissingArgument(CommandKind::LookAt))
    );
    assert_eq!(
        compile_transform("identity 1"),
        Err(TransformError::ExtraArguments(CommandKind::Identity))
    );
}

#[test]
fn unknown_command_is_named() {
    assert_eq!(
        compile_transform("translate 1 2 3\nspin 1 2 3"),
        Err(TransformError::UnknownCommand("spin".to_string()))
    );
}

#[test]
fn first_bad_line_wins() {
    assert_eq!(
        compile_transform("scale 1\nspin"),
        Err(TransformError::MissingArgument(CommandKind::Scale))
    );
}

#[test]
fn comments_and_blank_lines_give_identity() {
    assert_eq!(compile_transform("# nothing here\n\n"), Ok(identity_plan(vec![])));
    assert_eq!(compile_transform(""), Ok(identity_plan(vec![])));
    assert_eq!(compile_transform("  #translate 1 2 3\r\n\t\n"), Ok(identity_plan(vec![])));
}

fn table(entries: Vec<(&str, ConfigValue)>) -> Vec<(String, ConfigValue)> {
    entries.into_iter().map(|(k, v)| (k.to_string(), v)).collect()
}

#[test]
fn camera_must_be_a_table() {
    let conf = table(vec![("lights", ConfigValue::Other)]);
    assert_eq!(parse_camera(&conf), Err(ConfigError::CameraNotTable));
    let conf = table(vec![("camera", ConfigValue::Integer(3))]);
    assert_eq!(parse_camera(&conf), Err(ConfigError::CameraNotTable));
}

#[test]
fn camera_fov_must_be_numeric() {
    let conf = table(vec![(
        "camera",
        ConfigValue::Table(table(vec![
            ("fov", ConfigValue::String("wide".to_string())),
            ("view", ConfigValue::String("identity".to_string())),
        ])),
    )]);
    assert_eq!(parse_camera(&conf), Err(ConfigError::FovNotNumber));
    let conf = table(vec![(
        "camera",
        ConfigValue::Table(table(vec![("view", ConfigValue::String("identity".to_string()))])),
    )]);
    assert_eq!(parse_camera(&conf), Err(ConfigError::MissingFov));
}

#[test]
fn camera_view_is_required() {
    let conf = table(vec![("camera", ConfigValue::Table(table(vec![("fov", ConfigValue::Integer(60))])))]);
    assert_eq!(parse_camera(&conf), Err(ConfigError::MissingView));
    let conf = table(vec![(
        "camera",
        ConfigValue::Table(table(vec![("fov", ConfigValue::Integer(60)), ("view", ConfigValue::Integer(1))])),
    )]);
    assert_eq!(parse_camera(&conf), Err(ConfigError::ViewNotString));
    let conf = table(vec![(
        "camera",
        ConfigValue::Table(table(vec![
            ("fov", ConfigValue::Integer(60)),
            ("view", ConfigValue::String("shear 1".to_string())),
        ])),
    )]);
    assert_eq!(
        parse_camera(&conf),
        Err(ConfigError::View(vec![], TransformError::UnknownCommand("shear".to_string())))
    );
}

#[test]
fn camera_is_read() {
    let conf = table(vec![
        ("title", ConfigValue::String("demo".to_string())),
        (
            "camera",
            ConfigValue::Table(table(vec![
                ("view", ConfigValue::String("translate 0 0 -5\n# back off".to_string())),
                ("fov", ConfigValue::Float("45.5".to_string())),
            ])),
        ),
    ]);
    assert_eq!(
        parse_camera(&conf),
        Ok(CameraConfig {
            fov: FovDegrees::Float("45.5".to_string()),
            view: vec![command(CommandKind::Translate, &["0", "0", "-5"])],
        })
    );
}

fn caps(graphics: bool, compute: bool, transfer: bool, present: bool) -> QueueFamilyCaps {
    QueueFamilyCaps { graphics, compute, transfer, present }
}

#[test]
fn queue_families_take_the_first_match() {
    let fams = vec![caps(false, true, false, false), caps(true, true, false, true), caps(true, false, false, true)];
    assert_eq!(
        select_queue_families(&fams),
        QueueFamilyInfo { graphics_index: Some(1), present_index: Some(1), compute_index: Some(0), transfer_index: None }
    );
}

#[test]
fn transfer_families_land_in_compute_index() {
    let fams = vec![
        caps(true, true, true, true),
        caps(false, true, false, false),
        caps(false, false, true, false),
    ];
    assert_eq!(
        select_queue_families(&fams),
        QueueFamilyInfo { graphics_index: Some(0), present_index: Some(0), compute_index: Some(2), transfer_index: None }
    );
    assert_eq!(select_queue_families(&vec![]), QueueFamilyInfo::default());
}

#[test]
fn severity_levels() {
    assert_eq!(log_level_of(0x1000 | 0x1), LogLevel::Error);
    assert_eq!(log_level_of(0x100), LogLevel::Warn);
    assert_eq!(log_level_of(0x10 | 0x1), LogLevel::Info);
    assert_eq!(log_level_of(0x1), LogLevel::Debug);
    assert_eq!(log_level_of(0x2), LogLevel::Unknown);
}

#[test]
fn commands_before_a_reset_are_kept() {
    let (cmds, failed) = compile_commands("translate x 0 0\nidentity");
    assert_eq!(
        cmds,
        vec![command(CommandKind::Translate, &["x", "0", "0"]), command(CommandKind::Identity, &[])]
    );
    assert_eq!(failed, None);
    assert_eq!(plan_from_commands(cmds), identity_plan(vec![]));
}

#[test]
fn commands_before_the_first_bad_line_are_kept() {
    let (cmds, failed) = compile_commands("translate x 0 0\n# note\nfoo\nscale 1");
    assert_eq!(cmds, vec![command(CommandKind::Translate, &["x", "0", "0"])]);
    assert_eq!(failed, Some(TransformError::UnknownCommand("foo".to_string())));
}

#[test]
fn plan_starts_at_the_last_reset() {
    let cmds = vec![
        command(CommandKind::Scale, &["2", "2", "2"]),
        command(CommandKind::LookAt, &["1", "2", "3", "0", "0", "0", "0", "1", "0"]),
        command(CommandKind::Translate, &["1", "0", "0"]),
    ];
    assert_eq!(
        plan_from_commands(cmds),
        TransformPlan {
            base: command(CommandKind::LookAt, &["1", "2", "3", "0", "0", "0", "0", "1", "0"]),
            ops: vec![command(CommandKind::Translate, &["1", "0", "0"])],
        }
    );
}

#[test]
fn camera_view_error_keeps_earlier_commands() {
    let conf = table(vec![(
        "camera",
        ConfigValue::Table(table(vec![
            ("fov", ConfigValue::Integer(60)),
            ("view", ConfigValue::String("translate 1 2 3\nscale 1 2".to_string())),
        ])),
    )]);
    assert_eq!(
        parse_camera(&conf),
        Err(ConfigError::View(
            vec![command(CommandKind::Translate, &["1", "2", "3"])],
            TransformError::MissingArgument(CommandKind::Scale)
        ))
    );
}

#[test]
fn unicode_space_is_part_of_a_word() {
    assert_eq!(
        compile_transform("\u{3000}identity"),
        Err(TransformError::UnknownCommand("\u{3000}identity".to_string()))
    );
}
