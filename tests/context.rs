use turbopack::context::{
    Asset, EcmascriptModuleType, Environment, Module, ModuleAssetContext, ModuleError,
    ResolveOptionsContext, Transition, TransitionsByName,
};
use turbopack::module_options::{ModuleOptions, ModuleOptionsContext, ModuleType};
use turbopack::path::AbsoluteSystemPathBuf;

fn asset(path: &str, content: &[u8]) -> Asset {
    Asset::new(AbsoluteSystemPathBuf::parse(path), content.to_vec())
}

fn default_context(transitions: TransitionsByName) -> ModuleAssetContext {
    ModuleAssetContext::new(
        transitions,
        AbsoluteSystemPathBuf::root(),
        Environment { id: 1 },
        ModuleOptionsContext { enable_jsx: false },
        ResolveOptionsContext { enable_typescript: false, enable_node_modules: true },
    )
}

#[test]
fn empty_json_module() {
    let ctx = default_context(TransitionsByName::new());
    match ctx.process(&asset("/a.json", b"{}")).unwrap() {
        Module::Json(a) => {
            assert_eq!(a.path.to_text(), "/a.json");
            assert_eq!(a.content, b"{}".to_vec());
        },
        other => panic!("unexpected module {:?}", other),
    }
}

#[test]
fn typescript_import_chain() {
    let ctx = default_context(TransitionsByName::new());
    let app = ctx.process(&asset("/app.ts", b"import './util'")).unwrap();
    let app_context = match app {
        Module::Ecmascript { module_type, context, transforms, .. } => {
            assert_eq!(module_type, EcmascriptModuleType::Typescript);
            assert!(transforms.typescript);
            context
        },
        other => panic!("unexpected module {:?}", other),
    };
    assert!(app_context.is_typescript_resolving_enabled());
    let found = vec![asset("/util.ts", b"export {}")];
    let resolved = app_context
        .resolve_asset(AbsoluteSystemPathBuf::root(), "./util".to_string(), &found)
        .unwrap();
    assert_eq!(resolved.modules.len(), 1);
    match &resolved.modules[0] {
        Module::Ecmascript { source, module_type, .. } => {
            assert_eq!(source.path.to_text(), "/util.ts");
            assert_eq!(*module_type, EcmascriptModuleType::Typescript);
        },
        other => panic!("unexpected module {:?}", other),
    }
    assert_eq!(resolved.types_references.len(), 1);
    assert_eq!(resolved.types_references[0].request, "./util");
    let plain = default_context(TransitionsByName::new());
    let resolved = plain
        .resolve_asset(AbsoluteSystemPathBuf::root(), "./util".to_string(), &found)
        .unwrap();
    assert_eq!(resolved.types_references.len(), 0);
}

#[test]
fn typescript_resolving_idempotent() {
    let ctx = default_context(TransitionsByName::new());
    let once = ctx.with_typescript_resolving_enabled();
    let twice = once.with_typescript_resolving_enabled();
    assert!(once.resolve_options_context.enable_typescript);
    assert_eq!(once.resolve_options_context, twice.resolve_options_context);
    assert!(once.context_path.same_as(&twice.context_path));
    assert_eq!(once.environment, twice.environment);
    assert!(twice.transition.is_none());
}

#[test]
fn transition_isolation() {
    let mut transitions = TransitionsByName::new();
    transitions.insert(
        "client".to_string(),
        Transition {
            environment: Some(Environment { id: 2 }),
            module_options_context: None,
            resolve_options_context: None,
            source_root: Some(AbsoluteSystemPathBuf::parse("/client")),
        },
    );
    let ctx = default_context(transitions).with_transition(&"client".to_string());
    assert!(ctx.transition.is_some());
    match ctx.process(&asset("/src/index.js", b"")).unwrap() {
        Module::Ecmascript { source, context, environment, .. } => {
            assert_eq!(source.path.to_text(), "/client/src/index.js");
            assert_eq!(context.context_path.to_text(), "/client/src");
            assert!(context.transition.is_none());
            assert_eq!(environment, Environment { id: 2 });
            assert_eq!(context.environment, Environment { id: 2 });
        },
        other => panic!("unexpected module {:?}", other),
    }
    let unknown = default_context(TransitionsByName::new()).with_transition(&"nope".to_string());
    assert!(unknown.transition.is_none());
}

#[test]
fn module_types_by_extension() {
    let options = ModuleOptions::new(ModuleOptionsContext { enable_jsx: true });
    assert_eq!(options.module_type_for("a.json"), ModuleType::Json);
    assert_eq!(options.module_type_for("a.css"), ModuleType::Css);
    assert_eq!(options.module_type_for("a.png"), ModuleType::Static);
    assert_eq!(options.module_type_for("a.txt"), ModuleType::Raw);
    assert!(matches!(options.module_type_for("x.d.ts"), ModuleType::TypescriptDeclaration(_)));
    assert!(matches!(options.module_type_for("x.tsx"), ModuleType::Typescript(_)));
    match options.module_type_for("x.jsx") {
        ModuleType::Ecmascript(t) => assert!(t.react && !t.typescript),
        other => panic!("unexpected type {:?}", other),
    }
    let ctx = default_context(TransitionsByName::new());
    assert!(matches!(ctx.process(&asset("/readme.txt", b"hi")).unwrap(), Module::Raw(_)));
    assert!(matches!(ctx.process(&asset("/s.css", b"")).unwrap(), Module::Css { .. }));
    let _ = ModuleError::UnsupportedCustomType(0);
}
