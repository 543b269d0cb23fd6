use rtic_scope::parse::{
    adhoc_accessor, adhoc_dep_line, adhoc_func_name, adhoc_import_line, adhoc_manifest_preamble,
    split_app, AppItem, HwTask, ResolveError, TaskResolver, Token,
};

fn word(t: &str) -> Token {
    Token::Word { text: t.to_string() }
}

fn group(tokens: Vec<Token>) -> Token {
    Token::Group { tokens }
}

fn hw(name: &str, bind: &str) -> HwTask {
    HwTask { name: name.to_string(), bind: bind.to_string() }
}

fn path_of(p: &rtic_scope::recovery::TaskPath) -> Vec<String> {
    p.segments.clone()
}

#[test]
fn split_app_finds_first_app_block() {
    let tokens = vec![
        word("#"),
        group(vec![word("app"), group(vec![word("device")])]),
        word("mod"),
        word("app"),
    ];
    let at = split_app(tokens).unwrap();
    assert_eq!(at.args.len(), 1);
    match &at.args[0] {
        Token::Word { text } => assert_eq!(text, "device"),
        _ => panic!("expected a word"),
    }
    assert_eq!(at.body.len(), 2);
}

#[test]
fn split_app_without_app_block_fails() {
    let tokens = vec![word("fn"), word("main"), group(vec![word("body")])];
    match split_app(tokens) {
        Err(ResolveError::NoAppBlock) => {}
        _ => panic!("expected the stream to be rejected"),
    }
}

#[test]
fn split_app_with_malformed_app_block_fails() {
    // The app group carries no argument group after the keyword.
    let tokens = vec![group(vec![word("app"), word("nonsense")])];
    match split_app(tokens) {
        Err(ResolveError::BadAppBlock) => {}
        _ => panic!("expected the block to be rejected"),
    }
}

#[test]
fn software_ids_follow_depth_first_declaration_order() {
    // mod app { fn a #[trace] { fn inner #[trace] } mod sub { fn b #[trace] } fn c }
    let app = AppItem::Module {
        name: "app".to_string(),
        items: vec![
            AppItem::Function {
                name: "a".to_string(),
                traced: true,
                items: vec![AppItem::Function {
                    name: "inner".to_string(),
                    traced: true,
                    items: vec![],
                }],
            },
            AppItem::Module {
                name: "sub".to_string(),
                items: vec![AppItem::Function {
                    name: "b".to_string(),
                    traced: true,
                    items: vec![],
                }],
            },
            AppItem::Function { name: "c".to_string(), traced: false, items: vec![] },
            AppItem::Other,
        ],
    };
    let resolver = TaskResolver::new(app, vec![], Some(vec!["pac".to_string()]));
    let sw = resolver.software_tasks();
    let got: Vec<(u32, Vec<String>)> = sw.iter().map(|(id, p)| (*id, path_of(p))).collect();
    assert_eq!(
        got,
        vec![
            (0, vec!["app".to_string(), "a".to_string()]),
            (1, vec!["app".to_string(), "a".to_string(), "inner".to_string()]),
            (2, vec!["app".to_string(), "sub".to_string(), "b".to_string()]),
        ]
    );
}

#[test]
fn nested_traced_function_and_bound_interrupt_resolve() {
    // A traced `foo` inside the app module, and `serial_task` bound to
    // UART0 whose number the device crate reports as 37.
    let app = AppItem::Module {
        name: "app".to_string(),
        items: vec![AppItem::Function { name: "foo".to_string(), traced: true, items: vec![] }],
    };
    let resolver = TaskResolver::new(
        app,
        vec![hw("serial_task", "UART0")],
        Some(vec!["pac".to_string()]),
    );
    assert_eq!(resolver.required_interrupts(), vec!["UART0".to_string()]);
    let numbers = vec![("UART0".to_string(), 37u8)];
    let maps = resolver.resolve(Some(&numbers)).unwrap();
    assert_eq!(maps.sw_assocs.len(), 1);
    assert_eq!(maps.sw_assocs[0].0, 0);
    assert_eq!(path_of(&maps.sw_assocs[0].1), vec!["app".to_string(), "foo".to_string()]);
    assert!(maps.exceptions.is_empty());
    assert_eq!(maps.interrupts.len(), 1);
    assert_eq!(maps.interrupts[0].0, 37);
    assert_eq!(
        path_of(&maps.interrupts[0].1 .0),
        vec!["app".to_string(), "serial_task".to_string()]
    );
    assert_eq!(maps.interrupts[0].1 .1, "UART0");
}

#[test]
fn internal_binding_needs_no_numeric_lookup() {
    let app = AppItem::Module { name: "app".to_string(), items: vec![] };
    let resolver = TaskResolver::new(
        app,
        vec![hw("tick", "SysTick"), hw("serial", "UART0")],
        Some(vec!["pac".to_string()]),
    );
    // Only the peripheral interrupt needs numbers.
    assert_eq!(resolver.required_interrupts(), vec!["UART0".to_string()]);
    let numbers = vec![("UART0".to_string(), 37u8)];
    let maps = resolver.resolve(Some(&numbers)).unwrap();
    assert_eq!(maps.exceptions.len(), 1);
    assert_eq!(maps.exceptions[0].0, "SysTick");
    assert_eq!(
        path_of(&maps.exceptions[0].1),
        vec!["app".to_string(), "tick".to_string()]
    );
    let found = maps.lookup_exception(&"SysTick".to_string()).unwrap();
    assert_eq!(path_of(found), vec!["app".to_string(), "tick".to_string()]);
}

#[test]
fn failed_interrupt_resolution_exposes_no_partial_map() {
    let app = AppItem::Module { name: "app".to_string(), items: vec![] };
    let resolver = TaskResolver::new(
        app,
        vec![hw("serial", "UART0")],
        Some(vec!["pac".to_string()]),
    );
    match resolver.resolve(None) {
        Err(ResolveError::InterruptResolutionFailed) => {}
        _ => panic!("expected resolution to fail without numbers"),
    }
}

#[test]
fn missing_device_argument_is_fatal() {
    let app = AppItem::Module { name: "app".to_string(), items: vec![] };
    let resolver = TaskResolver::new(app, vec![], None);
    match resolver.resolve(None) {
        Err(ResolveError::MissingDeviceArg) => {}
        _ => panic!("expected the missing device argument to be fatal"),
    }
}

#[test]
fn overlong_device_argument_is_fatal_when_interrupts_are_bound() {
    let app = AppItem::Module { name: "app".to_string(), items: vec![] };
    let device = Some(vec!["a".to_string(), "b".to_string(), "c".to_string()]);
    let resolver = TaskResolver::new(app, vec![hw("serial", "UART0")], device);
    match resolver.resolve(Some(&vec![("UART0".to_string(), 37u8)])) {
        Err(ResolveError::BadDeviceArg) => {}
        _ => panic!("expected the device argument to be rejected"),
    }
}

#[test]
fn no_external_binds_skips_numeric_resolution() {
    let app = AppItem::Module { name: "app".to_string(), items: vec![] };
    let resolver = TaskResolver::new(
        app,
        vec![hw("tick", "SysTick")],
        Some(vec!["pac".to_string()]),
    );
    let maps = resolver.resolve(None).unwrap();
    assert!(maps.interrupts.is_empty());
    assert_eq!(maps.exceptions.len(), 1);
}

#[test]
fn adhoc_unit_text_is_exact() {
    assert_eq!(adhoc_func_name("UART0"), "rtic_scope_func_UART0");
    assert_eq!(
        adhoc_dep_line("stm32f4", Some("stm32f401")),
        "\nstm32f4 = { version = \"\", features = [\"stm32f401\"]}\n"
    );
    assert_eq!(
        adhoc_dep_line("stm32f4", None),
        "\nstm32f4 = { version = \"\", features = [\"\"]}\n"
    );
    assert_eq!(
        adhoc_import_line("stm32f4", Some("stm32f401")),
        "\nuse stm32f4::stm32f401::Interrupt;\n"
    );
    assert_eq!(adhoc_import_line("stm32f4", None), "\nuse stm32f4::Interrupt;\n");
}

#[test]
fn generated_unit_scaffold_is_exact() {
    assert_eq!(
        adhoc_manifest_preamble(),
        "[package]\nname = \"adhoc\"\nversion = \"0.0.0\"\nedition = \"2021\"\n[lib]\ncrate-type = [\"cdylib\"]\n[dependencies]\n"
    );
    assert_eq!(
        adhoc_accessor("pub ", "UART0"),
        "#[no_mangle]\npub fn rtic_scope_func_UART0() -> u8 {\n    Interrupt::UART0.nr()\n}\n"
    );
}
