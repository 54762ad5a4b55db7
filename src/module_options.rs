use vstd::prelude::*;
use vstd::string::{StrSliceExecFns, StringExecFns};

verus! {

/// The transforms applied to an ECMAScript module.
#[derive(PartialEq, Eq, Structural, Clone, Copy, Debug)]
pub struct EcmascriptTransforms {
    pub react: bool,
    pub typescript: bool,
}

/// What kind of module an asset becomes.
#[derive(PartialEq, Eq, Structural, Clone, Copy, Debug)]
pub enum ModuleType {
    Ecmascript(EcmascriptTransforms),
    Typescript(EcmascriptTransforms),
    TypescriptDeclaration(EcmascriptTransforms),
    Json,
    Raw,
    Css,
    Static,
    Custom(u8),
}

/// The options that decide how source files are typed.
#[derive(PartialEq, Eq, Structural, Clone, Copy, Debug)]
pub struct ModuleOptionsContext {
    pub enable_jsx: bool,
}

/// A rule: files whose name ends with `suffix` get `module_type`.
#[derive(Debug)]
pub struct ModuleRule {
    pub suffix: String,
    pub module_type: ModuleType,
}

impl View for ModuleRule {
    type V = (Seq<char>, ModuleType);

    open spec fn view(&self) -> (Seq<char>, ModuleType) {
        (self.suffix@, self.module_type)
    }
}

/// An ordered list of rules; a later matching rule overrides an earlier one.
#[derive(Debug)]
pub struct ModuleOptions {
    pub rules: Vec<ModuleRule>,
}

pub open spec fn rules_view(rules: Seq<ModuleRule>) -> Seq<(Seq<char>, ModuleType)> {
    rules.map_values(|r: ModuleRule| r@)
}

/// `s` ends with `suffix`.
pub open spec fn ends_with(s: Seq<char>, suffix: Seq<char>) -> bool {
    suffix.len() <= s.len() && s.subrange(s.len() - suffix.len(), s.len() as int) == suffix
}

/// The module type that the rules give a file name: that of the last
/// matching rule, and `Raw` where none matches.
pub open spec fn resolved_type(rules: Seq<(Seq<char>, ModuleType)>, name: Seq<char>) -> ModuleType
    decreases rules.len(),
{
    if rules.len() == 0 {
        ModuleType::Raw
    } else if ends_with(name, rules.last().0) {
        rules.last().1
    } else {
        resolved_type(rules.drop_last(), name)
    }
}

/// The transforms for plain ECMAScript and for TypeScript sources.
pub open spec fn js_transforms(moc: ModuleOptionsContext) -> EcmascriptTransforms {
    EcmascriptTransforms { react: moc.enable_jsx, typescript: false }
}

pub open spec fn ts_transforms(moc: ModuleOptionsContext) -> EcmascriptTransforms {
    EcmascriptTransforms { react: moc.enable_jsx, typescript: true }
}

/// The default rules for a module options context.
pub open spec fn default_rules(moc: ModuleOptionsContext) -> Seq<(Seq<char>, ModuleType)> {
    seq![
        (".json"@, ModuleType::Json),
        (".css"@, ModuleType::Css),
        (".js"@, ModuleType::Ecmascript(js_transforms(moc))),
        (".mjs"@, ModuleType::Ecmascript(js_transforms(moc))),
        (".cjs"@, ModuleType::Ecmascript(js_transforms(moc))),
        (".jsx"@, ModuleType::Ecmascript(js_transforms(moc))),
        (".ts"@, ModuleType::Typescript(ts_transforms(moc))),
        (".tsx"@, ModuleType::Typescript(ts_transforms(moc))),
        (".d.ts"@, ModuleType::TypescriptDeclaration(ts_transforms(moc))),
        (".png"@, ModuleType::Static),
        (".jpg"@, ModuleType::Static),
        (".jpeg"@, ModuleType::Static),
        (".gif"@, ModuleType::Static),
        (".svg"@, ModuleType::Static),
        (".webp"@, ModuleType::Static),
    ]
}

/// Whether `s` ends with `suffix`.
pub fn str_ends_with(s: &str, suffix: &str) -> (r: bool)
    ensures
        r == ends_with(s@, suffix@),
{
    let n = s.unicode_len();
    let m = suffix.unicode_len();
    if m > n {
        return false;
    }
    let mut i: usize = 0;
    while i < m
        invariant
            n == s@.len(),
            m == suffix@.len(),
            m <= n,
            i <= m,
            forall|k: int| 0 <= k < i ==> s@[n - m + k] == suffix@[k],
        decreases m - i,
    {
        if s.get_char(n - m + i) != suffix.get_char(i) {
            assert(s@.subrange(n - m, n as int)[i as int] != suffix@[i as int]);
            return false;
        }
        i = i + 1;
    }
    assert(s@.subrange(n - m, n as int) =~= suffix@);
    true
}

fn push_rule(rules: &mut Vec<ModuleRule>, suffix: &str, module_type: ModuleType)
    ensures
        final(rules)@ == old(rules)@.push(ModuleRule { suffix: final(rules)@.last().suffix, module_type }),
        final(rules)@.last().suffix@ == suffix@,
{
    rules.push(ModuleRule { suffix: String::from_str(suffix), module_type });
}

impl ModuleOptions {
    /// The default rules: JSON, CSS, ECMAScript, TypeScript, TypeScript
    /// declarations and static images, by file extension.
    pub fn new(moc: ModuleOptionsContext) -> (r: Self)
        ensures
            rules_view(r.rules@) == default_rules(moc),
    {
        let js = EcmascriptTransforms { react: moc.enable_jsx, typescript: false };
        let ts = EcmascriptTransforms { react: moc.enable_jsx, typescript: true };
        let mut rules: Vec<ModuleRule> = Vec::new();
        push_rule(&mut rules, ".json", ModuleType::Json);
        push_rule(&mut rules, ".css", ModuleType::Css);
        push_rule(&mut rules, ".js", ModuleType::Ecmascript(js));
        push_rule(&mut rules, ".mjs", ModuleType::Ecmascript(js));
        push_rule(&mut rules, ".cjs", ModuleType::Ecmascript(js));
        push_rule(&mut rules, ".jsx", ModuleType::Ecmascript(js));
        push_rule(&mut rules, ".ts", ModuleType::Typescript(ts));
        push_rule(&mut rules, ".tsx", ModuleType::Typescript(ts));
        push_rule(&mut rules, ".d.ts", ModuleType::TypescriptDeclaration(ts));
        push_rule(&mut rules, ".png", ModuleType::Static);
        push_rule(&mut rules, ".jpg", ModuleType::Static);
        push_rule(&mut rules, ".jpeg", ModuleType::Static);
        push_rule(&mut rules, ".gif", ModuleType::Static);
        push_rule(&mut rules, ".svg", ModuleType::Static);
        push_rule(&mut rules, ".webp", ModuleType::Static);
        assert(rules_view(rules@) =~= default_rules(moc));
        ModuleOptions { rules }
    }

    /// The module type for a file name: the last matching rule decides, and
    /// `Raw` where none matches.
    pub fn module_type_for(&self, name: &str) -> (r: ModuleType)
        ensures
            r == resolved_type(rules_view(self.rules@), name@),
    {
        let mut result = ModuleType::Raw;
        let mut i: usize = 0;
        while i < self.rules.len()
            invariant
                i <= self.rules@.len(),
                result == resolved_type(rules_view(self.rules@.subrange(0, i as int)), name@),
            decreases self.rules@.len() - i,
        {
            let ghost pre = rules_view(self.rules@.subrange(0, i + 1));
            assert(pre.drop_last() =~= rules_view(self.rules@.subrange(0, i as int)));
            if str_ends_with(name, self.rules[i].suffix.as_str()) {
                result = self.rules[i].module_type;
            }
            i = i + 1;
        }
        assert(self.rules@.subrange(0, i as int) =~= self.rules@);
        result
    }
}

} // verus!
