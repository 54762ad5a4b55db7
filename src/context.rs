use vstd::prelude::*;

use crate::module_options::{
    default_rules, resolved_type, EcmascriptTransforms, ModuleOptions, ModuleOptionsContext,
    ModuleType,
};
use crate::path::AbsoluteSystemPathBuf;

verus! {

/// The target environment that modules are compiled for.
#[derive(PartialEq, Eq, Structural, Clone, Copy, Debug)]
pub struct Environment {
    pub id: u64,
}

/// The options that decide how requests are resolved.
#[derive(PartialEq, Eq, Structural, Clone, Copy, Debug)]
pub struct ResolveOptionsContext {
    pub enable_typescript: bool,
    pub enable_node_modules: bool,
}

/// A source file: its path and its bytes.
#[derive(Debug)]
pub struct Asset {
    pub path: AbsoluteSystemPathBuf,
    pub content: Vec<u8>,
}

pub struct AssetView {
    pub path: Seq<Seq<char>>,
    pub content: Seq<u8>,
}

impl View for Asset {
    type V = AssetView;

    open spec fn view(&self) -> AssetView {
        AssetView { path: self.path@, content: self.content@ }
    }
}

fn copy_bytes(v: &Vec<u8>) -> (r: Vec<u8>)
    ensures
        r@ == v@,
{
    let mut out: Vec<u8> = Vec::new();
    let mut i: usize = 0;
    while i < v.len()
        invariant
            i <= v@.len(),
            out@ == v@.subrange(0, i as int),
        decreases v@.len() - i,
    {
        out.push(v[i]);
        assert(out@ =~= v@.subrange(0, i + 1));
        i = i + 1;
    }
    assert(out@ =~= v@);
    out
}

impl Asset {
    pub fn new(path: AbsoluteSystemPathBuf, content: Vec<u8>) -> (r: Self)
        ensures
            r.path == path,
            r.content == content,
    {
        Asset { path, content }
    }

    /// A copy of the asset.
    pub fn copy(&self) -> (r: Self)
        ensures
            r@ == self@,
    {
        Asset { path: self.path.clone(), content: copy_bytes(&self.content) }
    }
}

/// A rewrite of the context along an edge of the module graph. Each part
/// that is set replaces the corresponding part of the context; a source
/// root moves the source below that directory.
#[derive(Debug)]
pub struct Transition {
    pub environment: Option<Environment>,
    pub module_options_context: Option<ModuleOptionsContext>,
    pub resolve_options_context: Option<ResolveOptionsContext>,
    pub source_root: Option<AbsoluteSystemPathBuf>,
}

pub struct TransitionView {
    pub environment: Option<Environment>,
    pub module_options_context: Option<ModuleOptionsContext>,
    pub resolve_options_context: Option<ResolveOptionsContext>,
    pub source_root: Option<Seq<Seq<char>>>,
}

impl View for Transition {
    type V = TransitionView;

    open spec fn view(&self) -> TransitionView {
        TransitionView {
            environment: self.environment,
            module_options_context: self.module_options_context,
            resolve_options_context: self.resolve_options_context,
            source_root: match self.source_root {
                Some(p) => Some(p@),
                None => None,
            },
        }
    }
}

/// The source after a transition: moved below the source root, if any.
pub open spec fn transition_source(t: TransitionView, a: AssetView) -> AssetView {
    match t.source_root {
        Some(root) => AssetView { path: root + a.path, content: a.content },
        None => a,
    }
}

pub open spec fn or_else<T>(o: Option<T>, d: T) -> T {
    match o {
        Some(x) => x,
        None => d,
    }
}

impl Transition {
    /// A copy of the transition.
    pub fn copy(&self) -> (r: Self)
        ensures
            r@ == self@,
    {
        Transition {
            environment: self.environment,
            module_options_context: self.module_options_context,
            resolve_options_context: self.resolve_options_context,
            source_root: match &self.source_root {
                Some(p) => Some(p.clone()),
                None => None,
            },
        }
    }

    /// The source as this transition presents it.
    pub fn process_source(&self, asset: &Asset) -> (r: Asset)
        ensures
            r@ == transition_source(self@, asset@),
    {
        match &self.source_root {
            Some(root) => Asset { path: root.join(&asset.path), content: copy_bytes(&asset.content) },
            None => asset.copy(),
        }
    }

    pub fn process_environment(&self, environment: Environment) -> (r: Environment)
        ensures
            r == or_else(self@.environment, environment),
    {
        match self.environment {
            Some(e) => e,
            None => environment,
        }
    }

    pub fn process_module_options_context(&self, moc: ModuleOptionsContext) -> (r:
        ModuleOptionsContext)
        ensures
            r == or_else(self@.module_options_context, moc),
    {
        match self.module_options_context {
            Some(m) => m,
            None => moc,
        }
    }

    pub fn process_resolve_options_context(&self, roc: ResolveOptionsContext) -> (r:
        ResolveOptionsContext)
        ensures
            r == or_else(self@.resolve_options_context, roc),
    {
        match self.resolve_options_context {
            Some(r) => r,
            None => roc,
        }
    }
}

/// Transitions by name; the first entry with a name is the one that counts.
#[derive(Debug)]
pub struct TransitionsByName {
    pub entries: Vec<(String, Transition)>,
}

impl View for TransitionsByName {
    type V = Seq<(Seq<char>, TransitionView)>;

    open spec fn view(&self) -> Seq<(Seq<char>, TransitionView)> {
        self.entries@.map_values(|e: (String, Transition)| (e.0@, e.1@))
    }
}

/// The transition that `name` stands for.
pub open spec fn lookup(ts: Seq<(Seq<char>, TransitionView)>, name: Seq<char>) -> Option<
    TransitionView,
>
    decreases ts.len(),
{
    if ts.len() == 0 {
        None
    } else if ts[0].0 == name {
        Some(ts[0].1)
    } else {
        lookup(ts.drop_first(), name)
    }
}

impl TransitionsByName {
    pub fn new() -> (r: Self)
        ensures
            r@.len() == 0,
    {
        TransitionsByName { entries: Vec::new() }
    }

    /// Adds a named transition after the others.
    pub fn insert(&mut self, name: String, transition: Transition)
        ensures
            final(self)@ == old(self)@.push((name@, transition@)),
    {
        self.entries.push((name, transition));
        assert(final(self)@ =~= old(self)@.push((name@, transition@)));
    }

    /// A copy of the table.
    pub fn copy(&self) -> (r: Self)
        ensures
            r@ == self@,
    {
        let mut out: Vec<(String, Transition)> = Vec::new();
        let mut i: usize = 0;
        while i < self.entries.len()
            invariant
                i <= self.entries@.len(),
                out@.len() == i,
                forall|k: int|
                    0 <= k < i ==> (#[trigger] out@[k]).0@ == self.entries@[k].0@ && out@[k].1@
                        == self.entries@[k].1@,
            decreases self.entries@.len() - i,
        {
            out.push((self.entries[i].0.clone(), self.entries[i].1.copy()));
            i = i + 1;
        }
        let r = TransitionsByName { entries: out };
        assert(r@ =~= self@);
        r
    }

    /// The transition named `name`, copied.
    pub fn get(&self, name: &String) -> (r: Option<Transition>)
        ensures
            match lookup(self@, name@) {
                Some(t) => r matches Some(x) && x@ == t,
                None => r is None,
            },
    {
        let mut i: usize = 0;
        assert(self@.subrange(0, self@.len() as int) =~= self@);
        while i < self.entries.len()
            invariant
                i <= self.entries@.len(),
                lookup(self@, name@) == lookup(self@.subrange(i as int, self@.len() as int), name@),
            decreases self.entries@.len() - i,
        {
            let ghost rest = self@.subrange(i as int, self@.len() as int);
            assert(rest.drop_first() =~= self@.subrange(i + 1, self@.len() as int));
            if self.entries[i].0 == *name {
                return Some(self.entries[i].1.copy());
            }
            i = i + 1;
        }
        None
    }
}

/// The configuration under which assets are typed and their requests
/// resolved.
#[derive(Debug)]
pub struct ModuleAssetContext {
    pub transitions: TransitionsByName,
    pub context_path: AbsoluteSystemPathBuf,
    pub environment: Environment,
    pub module_options_context: ModuleOptionsContext,
    pub resolve_options_context: ResolveOptionsContext,
    pub transition: Option<Transition>,
}

pub struct ContextView {
    pub transitions: Seq<(Seq<char>, TransitionView)>,
    pub context_path: Seq<Seq<char>>,
    pub environment: Environment,
    pub module_options_context: ModuleOptionsContext,
    pub resolve_options_context: ResolveOptionsContext,
    pub transition: Option<TransitionView>,
}

impl View for ModuleAssetContext {
    type V = ContextView;

    open spec fn view(&self) -> ContextView {
        ContextView {
            transitions: self.transitions@,
            context_path: self.context_path@,
            environment: self.environment,
            module_options_context: self.module_options_context,
            resolve_options_context: self.resolve_options_context,
            transition: match self.transition {
                Some(t) => Some(t@),
                None => None,
            },
        }
    }
}

/// The context with typescript resolving switched on. Where it is on
/// already the context itself; otherwise a fresh context, without a
/// transition.
pub open spec fn typescript_enabled(c: ContextView) -> ContextView {
    if c.resolve_options_context.enable_typescript {
        c
    } else {
        ContextView {
            resolve_options_context: ResolveOptionsContext {
                enable_typescript: true,
                ..c.resolve_options_context
            },
            transition: None,
            ..c
        }
    }
}

/// The context under which a processed asset is typed: at the directory of
/// the (transformed) source, with the parts that the transition rewrites,
/// and without a transition.
pub open spec fn processing_context(c: ContextView, a: AssetView) -> ContextView {
    match c.transition {
        Some(t) => ContextView {
            transitions: c.transitions,
            context_path: parent_of(transition_source(t, a).path),
            environment: or_else(t.environment, c.environment),
            module_options_context: or_else(t.module_options_context, c.module_options_context),
            resolve_options_context: or_else(t.resolve_options_context, c.resolve_options_context),
            transition: None,
        },
        None => ContextView {
            context_path: parent_of(a.path),
            transition: None,
            ..c
        },
    }
}

/// The source that a context hands on for typing.
pub open spec fn processing_source(c: ContextView, a: AssetView) -> AssetView {
    match c.transition {
        Some(t) => transition_source(t, a),
        None => a,
    }
}

/// The directory that holds a path; the root is its own parent.
pub open spec fn parent_of(p: Seq<Seq<char>>) -> Seq<Seq<char>> {
    if p.len() == 0 {
        p
    } else {
        p.drop_last()
    }
}

/// The kind of an ECMAScript module.
#[derive(PartialEq, Eq, Structural, Clone, Copy, Debug)]
pub enum EcmascriptModuleType {
    Ecmascript,
    Typescript,
    TypescriptDeclaration,
}

/// A typed module made from a source asset.
#[derive(Debug)]
pub enum Module {
    Ecmascript {
        source: Asset,
        context: ModuleAssetContext,
        module_type: EcmascriptModuleType,
        transforms: EcmascriptTransforms,
        environment: Environment,
    },
    Json(Asset),
    Css { source: Asset, context: ModuleAssetContext },
    Static { source: Asset, context: ModuleAssetContext },
    Raw(Asset),
}

pub enum ModuleView {
    Ecmascript {
        source: AssetView,
        context: ContextView,
        module_type: EcmascriptModuleType,
        transforms: EcmascriptTransforms,
        environment: Environment,
    },
    Json(AssetView),
    Css { source: AssetView, context: ContextView },
    Static { source: AssetView, context: ContextView },
    Raw(AssetView),
}

impl View for Module {
    type V = ModuleView;

    open spec fn view(&self) -> ModuleView {
        match self {
            Module::Ecmascript { source, context, module_type, transforms, environment } =>
                ModuleView::Ecmascript {
                source: source@,
                context: context@,
                module_type: *module_type,
                transforms: *transforms,
                environment: *environment,
            },
            Module::Json(a) => ModuleView::Json(a@),
            Module::Css { source, context } => ModuleView::Css { source: source@, context: context@ },
            Module::Static { source, context } => ModuleView::Static {
                source: source@,
                context: context@,
            },
            Module::Raw(a) => ModuleView::Raw(a@),
        }
    }
}

/// Why an asset could not be made a module: its type is a custom one, which
/// no module stands for yet.
#[derive(PartialEq, Eq, Structural, Clone, Copy, Debug)]
pub enum ModuleError {
    UnsupportedCustomType(u8),
}

/// The file name of a path: its last segment, or nothing for the root.
pub open spec fn file_name(p: Seq<Seq<char>>) -> Seq<char> {
    if p.len() == 0 {
        seq![]
    } else {
        p.last()
    }
}

/// The module that an asset becomes under a context: its type comes from
/// the default rules of the context's module options; TypeScript kinds are
/// resolved with typescript resolving switched on; JSON and raw assets keep
/// no context; a custom type fails.
pub open spec fn module_of(source: AssetView, c: ContextView) -> Result<ModuleView, ModuleError> {
    match resolved_type(default_rules(c.module_options_context), file_name(source.path)) {
        ModuleType::Ecmascript(t) => Ok(
            ModuleView::Ecmascript {
                source,
                context: c,
                module_type: EcmascriptModuleType::Ecmascript,
                transforms: t,
                environment: c.environment,
            },
        ),
        ModuleType::Typescript(t) => Ok(
            ModuleView::Ecmascript {
                source,
                context: typescript_enabled(c),
                module_type: EcmascriptModuleType::Typescript,
                transforms: t,
                environment: c.environment,
            },
        ),
        ModuleType::TypescriptDeclaration(t) => Ok(
            ModuleView::Ecmascript {
                source,
                context: typescript_enabled(c),
                module_type: EcmascriptModuleType::TypescriptDeclaration,
                transforms: t,
                environment: c.environment,
            },
        ),
        ModuleType::Json => Ok(ModuleView::Json(source)),
        ModuleType::Raw => Ok(ModuleView::Raw(source)),
        ModuleType::Css => Ok(ModuleView::Css { source, context: c }),
        ModuleType::Static => Ok(ModuleView::Static { source, context: c }),
        ModuleType::Custom(n) => Err(ModuleError::UnsupportedCustomType(n)),
    }
}

/// Switching typescript resolving on twice gives what switching it on once
/// gives.
pub proof fn lemma_typescript_enabled_idempotent(c: ContextView)
    ensures
        typescript_enabled(typescript_enabled(c)) == typescript_enabled(c),
{
}

/// The context that a transitioned edge produces has no transition, and
/// sits at the directory of the source as the transition presents it.
pub proof fn lemma_transition_isolation(c: ContextView, a: AssetView)
    requires
        c.transition is Some,
    ensures
        processing_context(c, a).transition is None,
        processing_context(c, a).context_path == parent_of(
            transition_source(c.transition->0, a).path,
        ),
{
}

fn last_segment(p: &AbsoluteSystemPathBuf) -> (r: String)
    ensures
        r@ == file_name(p@),
{
    let n = p.segments.len();
    if n == 0 {
        String::new()
    } else {
        p.segments[n - 1].clone()
    }
}

impl ModuleAssetContext {
    /// A context without a transition.
    pub fn new(
        transitions: TransitionsByName,
        context_path: AbsoluteSystemPathBuf,
        environment: Environment,
        module_options_context: ModuleOptionsContext,
        resolve_options_context: ResolveOptionsContext,
    ) -> (r: Self)
        ensures
            r@ == (ContextView {
                transitions: transitions@,
                context_path: context_path@,
                environment,
                module_options_context,
                resolve_options_context,
                transition: None,
            }),
    {
        ModuleAssetContext {
            transitions,
            context_path,
            environment,
            module_options_context,
            resolve_options_context,
            transition: None,
        }
    }

    /// A context that applies `transition` to the assets it processes.
    pub fn new_transition(
        transitions: TransitionsByName,
        context_path: AbsoluteSystemPathBuf,
        environment: Environment,
        module_options_context: ModuleOptionsContext,
        resolve_options_context: ResolveOptionsContext,
        transition: Transition,
    ) -> (r: Self)
        ensures
            r@ == (ContextView {
                transitions: transitions@,
                context_path: context_path@,
                environment,
                module_options_context,
                resolve_options_context,
                transition: Some(transition@),
            }),
    {
        ModuleAssetContext {
            transitions,
            context_path,
            environment,
            module_options_context,
            resolve_options_context,
            transition: Some(transition),
        }
    }

    /// A copy of the context.
    pub fn copy(&self) -> (r: Self)
        ensures
            r@ == self@,
    {
        ModuleAssetContext {
            transitions: self.transitions.copy(),
            context_path: self.context_path.clone(),
            environment: self.environment,
            module_options_context: self.module_options_context,
            resolve_options_context: self.resolve_options_context,
            transition: match &self.transition {
                Some(t) => Some(t.copy()),
                None => None,
            },
        }
    }

    pub fn context_path(&self) -> (r: AbsoluteSystemPathBuf)
        ensures
            r@ == self@.context_path,
    {
        self.context_path.clone()
    }

    pub fn environment(&self) -> (r: Environment)
        ensures
            r == self.environment,
    {
        self.environment
    }

    pub fn module_options_context(&self) -> (r: ModuleOptionsContext)
        ensures
            r == self.module_options_context,
    {
        self.module_options_context
    }

    pub fn is_typescript_resolving_enabled(&self) -> (r: bool)
        ensures
            r == self.resolve_options_context.enable_typescript,
    {
        self.resolve_options_context.enable_typescript
    }

    /// This context with typescript resolving switched on, so that `.d.ts`
    /// files next to a request are found.
    pub fn with_typescript_resolving_enabled(&self) -> (r: Self)
        ensures
            r@ == typescript_enabled(self@),
    {
        if self.is_typescript_resolving_enabled() {
            return self.copy();
        }
        let roc = ResolveOptionsContext { enable_typescript: true, ..self.resolve_options_context };
        ModuleAssetContext::new(
            self.transitions.copy(),
            self.context_path.clone(),
            self.environment,
            self.module_options_context,
            roc,
        )
    }

    /// This context at another directory, without a transition.
    pub fn with_context_path(&self, path: AbsoluteSystemPathBuf) -> (r: Self)
        ensures
            r@ == (ContextView { context_path: path@, transition: None, ..self@ }),
    {
        ModuleAssetContext::new(
            self.transitions.copy(),
            path,
            self.environment,
            self.module_options_context,
            self.resolve_options_context,
        )
    }

    /// This context for another environment, without a transition.
    pub fn with_environment(&self, environment: Environment) -> (r: Self)
        ensures
            r@ == (ContextView { environment, transition: None, ..self@ }),
    {
        ModuleAssetContext::new(
            self.transitions.copy(),
            self.context_path.clone(),
            environment,
            self.module_options_context,
            self.resolve_options_context,
        )
    }

    /// This context with the transition of that name; an unknown name gives
    /// the context without a transition.
    pub fn with_transition(&self, name: &String) -> (r: Self)
        ensures
            r@ == (ContextView { transition: lookup(self@.transitions, name@), ..self@ }),
    {
        match self.transitions.get(name) {
            Some(t) => ModuleAssetContext::new_transition(
                self.transitions.copy(),
                self.context_path.clone(),
                self.environment,
                self.module_options_context,
                self.resolve_options_context,
                t,
            ),
            None => ModuleAssetContext::new(
                self.transitions.copy(),
                self.context_path.clone(),
                self.environment,
                self.module_options_context,
                self.resolve_options_context,
            ),
        }
    }

    /// Turns an asset into a typed module under this context; where a
    /// transition is set, it rewrites the source and the context first.
    pub fn process(&self, asset: &Asset) -> (r: Result<Module, ModuleError>)
        ensures
            match module_of(processing_source(self@, asset@), processing_context(self@, asset@)) {
                Ok(m) => r matches Ok(x) && x@ == m,
                Err(e) => r == Err::<Module, ModuleError>(e),
            },
    {
        match &self.transition {
            Some(t) => {
                let source = t.process_source(asset);
                let environment = t.process_environment(self.environment);
                let moc = t.process_module_options_context(self.module_options_context);
                let roc = t.process_resolve_options_context(self.resolve_options_context);
                let context = ModuleAssetContext::new(
                    self.transitions.copy(),
                    source.path.parent(),
                    environment,
                    moc,
                    roc,
                );
                module(source, context)
            },
            None => {
                let context = ModuleAssetContext::new(
                    self.transitions.copy(),
                    asset.path.parent(),
                    self.environment,
                    self.module_options_context,
                    self.resolve_options_context,
                );
                module(asset.copy(), context)
            },
        }
    }
}

/// Turns a source into a typed module under a context.
pub fn module(source: Asset, context: ModuleAssetContext) -> (r: Result<Module, ModuleError>)
    ensures
        match module_of(source@, context@) {
            Ok(m) => r matches Ok(x) && x@ == m,
            Err(e) => r == Err::<Module, ModuleError>(e),
        },
{
    let options = ModuleOptions::new(context.module_options_context);
    let name = last_segment(&source.path);
    let ty = options.module_type_for(name.as_str());
    match ty {
        ModuleType::Ecmascript(transforms) => {
            let environment = context.environment;
            Ok(
                Module::Ecmascript {
                    source,
                    context,
                    module_type: EcmascriptModuleType::Ecmascript,
                    transforms,
                    environment,
                },
            )
        },
        ModuleType::Typescript(transforms) => {
            let environment = context.environment;
            let context = context.with_typescript_resolving_enabled();
            Ok(
                Module::Ecmascript {
                    source,
                    context,
                    module_type: EcmascriptModuleType::Typescript,
                    transforms,
                    environment,
                },
            )
        },
        ModuleType::TypescriptDeclaration(transforms) => {
            let environment = context.environment;
            let context = context.with_typescript_resolving_enabled();
            Ok(
                Module::Ecmascript {
                    source,
                    context,
                    module_type: EcmascriptModuleType::TypescriptDeclaration,
                    transforms,
                    environment,
                },
            )
        },
        ModuleType::Json => Ok(Module::Json(source)),
        ModuleType::Raw => Ok(Module::Raw(source)),
        ModuleType::Css => Ok(Module::Css { source, context }),
        ModuleType::Static => Ok(Module::Static { source, context }),
        ModuleType::Custom(n) => Err(ModuleError::UnsupportedCustomType(n)),
    }
}

/// An edge to the TypeScript type declarations of a request, resolved under
/// its own context.
#[derive(Debug)]
pub struct TypescriptTypesAssetReference {
    pub context: ModuleAssetContext,
    pub request: String,
}

/// What resolving a request under a context gives: the modules of the
/// assets that the resolver found, and the type-only edges.
#[derive(Debug)]
pub struct ResolveResult {
    pub modules: Vec<Module>,
    pub types_references: Vec<TypescriptTypesAssetReference>,
}

/// Each asset processed under `c`, or the first failure.
pub open spec fn processed_all(c: ContextView, assets: Seq<Asset>, r: Result<Vec<Module>, ModuleError>) -> bool {
    match r {
        Ok(ms) => ms@.len() == assets.len() && forall|k: int|
            0 <= k < assets.len() ==> module_of(
                processing_source(c, (#[trigger] assets[k])@),
                processing_context(c, assets[k]@),
            ) == Ok::<ModuleView, ModuleError>(ms@[k]@),
        Err(e) => exists|k: int|
            0 <= k < assets.len() && module_of(
                processing_source(c, (#[trigger] assets[k])@),
                processing_context(c, assets[k]@),
            ) == Err::<ModuleView, ModuleError>(e),
    }
}

impl ModuleAssetContext {
    /// Processes every asset that the resolver found; fails with the first
    /// asset that cannot become a module.
    pub fn process_resolve_result(&self, assets: &Vec<Asset>) -> (r: Result<Vec<Module>, ModuleError>)
        ensures
            processed_all(self@, assets@, r),
    {
        let mut out: Vec<Module> = Vec::new();
        let mut i: usize = 0;
        while i < assets.len()
            invariant
                i <= assets@.len(),
                out@.len() == i,
                forall|k: int|
                    0 <= k < i ==> module_of(
                        processing_source(self@, (#[trigger] assets@[k])@),
                        processing_context(self@, assets@[k]@),
                    ) == Ok::<ModuleView, ModuleError>(out@[k]@),
            decreases assets@.len() - i,
        {
            match self.process(&assets[i]) {
                Ok(m) => {
                    out.push(m);
                },
                Err(e) => {
                    assert(module_of(
                        processing_source(self@, assets@[i as int]@),
                        processing_context(self@, assets@[i as int]@),
                    ) == Err::<ModuleView, ModuleError>(e));
                    return Err(e);
                },
            }
            i = i + 1;
        }
        Ok(out)
    }

    /// Resolves `request` at `context_path`: the assets that the resolver
    /// found become modules under this context and, where typescript
    /// resolving is on, a type-only edge for the same request is added,
    /// under a context at `context_path` without a transition.
    pub fn resolve_asset(
        &self,
        context_path: AbsoluteSystemPathBuf,
        request: String,
        found: &Vec<Asset>,
    ) -> (r: Result<ResolveResult, ModuleError>)
        ensures
            r is Err <==> exists|k: int|
                0 <= k < found@.len() && module_of(
                    processing_source(self@, (#[trigger] found@[k])@),
                    processing_context(self@, found@[k]@),
                ) is Err,
            r matches Err(e) ==> processed_all(self@, found@, Err(e)),
            r matches Ok(res) ==> processed_all(self@, found@, Ok(res.modules)),
            r matches Ok(res) ==> (self.resolve_options_context.enable_typescript ==> res.types_references@.len() == 1
                && res.types_references@[0].request@ == request@
                && res.types_references@[0].context@ == (ContextView {
                    context_path: context_path@,
                    transition: None,
                    ..self@
                })),
            r matches Ok(res) ==> (!self.resolve_options_context.enable_typescript ==> res.types_references@.len() == 0),
    {
        let modules = match self.process_resolve_result(found) {
            Ok(ms) => ms,
            Err(e) => {
                return Err(e);
            },
        };
        let mut types_references: Vec<TypescriptTypesAssetReference> = Vec::new();
        if self.is_typescript_resolving_enabled() {
            let context = ModuleAssetContext::new(
                self.transitions.copy(),
                context_path,
                self.environment,
                self.module_options_context,
                self.resolve_options_context,
            );
            types_references.push(TypescriptTypesAssetReference { context, request });
        }
        Ok(ResolveResult { modules, types_references })
    }
}

} // verus!
