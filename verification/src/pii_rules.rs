//! Custom PII scrubbing rules.
//!
//! Extra sensitive keys add to the built-in ones; pattern rules rewrite
//! matches inside string values or replace the whole value under a matching
//! key. Rules are compiled once. Compilation is strict: an invalid pattern,
//! action or scope is an error, as a rule that silently does not apply is a
//! leak.

use vstd::prelude::*;
use vstd::string::*;

use crate::pattern;
use crate::text;

verus! {

/// Bound on the size of a compiled pattern.
pub const PATTERN_SIZE_LIMIT: usize = 0x10_0000;

/// One pattern rule as configured. `action` and `scope` are validated when the
/// rules are compiled.
#[derive(Debug, Clone)]
pub struct PiiPatternConfig {
    /// The regular expression.
    pub pattern: String,
    /// Name of the rule in messages; never in events.
    pub label: Option<String>,
    /// "redact" (default) or "hash".
    pub action: Option<String>,
    /// "values" (default), "keys" or "both".
    pub scope: Option<String>,
}

/// What a rule puts in place of what it matches.
#[derive(Debug, Clone, Copy, PartialEq, Eq, Structural)]
pub enum PiiAction {
    Redact,
    Hash,
}

/// A compiled pattern rule.
#[derive(Debug)]
pub struct CompiledPattern {
    pub regex: regex_lite::Regex,
    pub action: PiiAction,
    pub match_keys: bool,
    pub match_values: bool,
    pub label: Option<String>,
}

/// The compiled rule set. The empty one leaves the built-in rules alone.
#[derive(Debug)]
pub struct CompiledPiiRules {
    /// Lowercased extra sensitive key names, each of them once.
    pub extra_keys: Vec<String>,
    /// In declaration order.
    pub patterns: Vec<CompiledPattern>,
}

/// Why a rule does not compile. `rule` names it: its label in quotes, or its
/// position.
#[derive(Debug)]
pub enum PiiRuleError {
    EmptyPattern { rule: String },
    InvalidPattern { rule: String, cause: String },
    UnknownAction { rule: String, action: String },
    UnknownScope { rule: String, scope: String },
}

/// The model of [`PiiRuleError`].
pub enum RuleFault {
    EmptyPattern { rule: Seq<char> },
    InvalidPattern { rule: Seq<char>, cause: Seq<char> },
    UnknownAction { rule: Seq<char>, action: Seq<char> },
    UnknownScope { rule: Seq<char>, scope: Seq<char> },
}

/// What a valid rule compiles to.
pub struct RuleModel {
    pub regex: regex_lite::Regex,
    pub action: PiiAction,
    pub match_keys: bool,
    pub match_values: bool,
}

impl PiiRuleError {
    pub open spec fn view(&self) -> RuleFault {
        match self {
            PiiRuleError::EmptyPattern { rule } => RuleFault::EmptyPattern { rule: rule@ },
            PiiRuleError::InvalidPattern { rule, cause } => RuleFault::InvalidPattern {
                rule: rule@,
                cause: cause@,
            },
            PiiRuleError::UnknownAction { rule, action } => RuleFault::UnknownAction {
                rule: rule@,
                action: action@,
            },
            PiiRuleError::UnknownScope { rule, scope } => RuleFault::UnknownScope {
                rule: rule@,
                scope: scope@,
            },
        }
    }
}

impl CompiledPattern {
    /// The rule without its label.
    pub open spec fn model(&self) -> RuleModel {
        RuleModel {
            regex: self.regex,
            action: self.action,
            match_keys: self.match_keys,
            match_values: self.match_values,
        }
    }
}

/// An optional setting as it is read: trimmed, and absent where blank.
pub open spec fn setting(s: Option<String>) -> Seq<char> {
    match s {
        Some(v) => text::trim(v@),
        None => Seq::empty(),
    }
}

/// The action that a setting names.
pub open spec fn action_of(s: Seq<char>) -> Option<PiiAction> {
    if s.len() == 0 || text::lower(s) == "redact"@ {
        Some(PiiAction::Redact)
    } else if text::lower(s) == "hash"@ {
        Some(PiiAction::Hash)
    } else {
        None
    }
}

/// Whether the scope that a setting names takes in keys, and values.
pub open spec fn scope_of(s: Seq<char>) -> Option<(bool, bool)> {
    if s.len() == 0 || text::lower(s) == "values"@ {
        Some((false, true))
    } else if text::lower(s) == "keys"@ {
        Some((true, false))
    } else if text::lower(s) == "both"@ {
        Some((true, true))
    } else {
        None
    }
}

/// How messages name the rule at position `i`.
pub open spec fn rule_name(p: PiiPatternConfig, i: int) -> Seq<char> {
    if setting(p.label).len() > 0 {
        seq!['"'] + setting(p.label) + seq!['"']
    } else {
        seq!['#'] + text::decimal((i + 1) as nat)
    }
}

/// What the rule at position `i` comes to. The pattern is judged before the
/// action, and the action before the scope.
pub open spec fn rule_outcome(p: PiiPatternConfig, i: int) -> Result<RuleModel, RuleFault> {
    let rule = rule_name(p, i);
    let action = setting(p.action);
    let scope = setting(p.scope);
    if text::trim(p.pattern@).len() == 0 {
        Err(RuleFault::EmptyPattern { rule })
    } else {
        match pattern::built(p.pattern@, true, PATTERN_SIZE_LIMIT) {
            Err(cause) => Err(RuleFault::InvalidPattern { rule, cause }),
            Ok(regex) => match (action_of(action), scope_of(scope)) {
                (None, _) => Err(RuleFault::UnknownAction { rule, action }),
                (_, None) => Err(RuleFault::UnknownScope { rule, scope }),
                (Some(a), Some((match_keys, match_values))) => Ok(
                    RuleModel { regex, action: a, match_keys, match_values },
                ),
            },
        }
    }
}

/// The key that a configured entry adds: trimmed and lowercased.
pub open spec fn extra_key(entry: Seq<char>) -> Seq<char> {
    text::unicode_lower(text::trim(entry))
}

/// An entry that adds no key.
pub open spec fn is_blank(entry: Seq<char>) -> bool {
    text::trim(entry).len() == 0
}

/// How many of the first `n` entries are blank.
pub open spec fn blanks(entries: Seq<String>, n: int) -> nat
    decreases n,
{
    if n <= 0 {
        0
    } else {
        blanks(entries, n - 1) + if is_blank(entries[n - 1]@) {
            1nat
        } else {
            0nat
        }
    }
}

/// The warning about `n` blank entries.
pub open spec fn blank_warning(n: nat) -> Seq<char> {
    "customSensitiveKeys: ignored "@ + text::decimal(n) + " blank entr"@ + if n == 1 {
        "y"@
    } else {
        "ies"@
    }
}

/// `k` is one of the keys.
pub open spec fn among(keys: Seq<String>, k: Seq<char>) -> bool {
    exists|i: int| 0 <= i < keys.len() && (#[trigger] keys[i])@ == k
}

/// No key occurs twice.
pub open spec fn distinct(keys: Seq<String>) -> bool {
    forall|i: int, j: int|
        0 <= i < j < keys.len() ==> (#[trigger] keys[i])@ != (#[trigger] keys[j])@
}

/// The keys are those that the first `n` entries add.
spec fn keys_match(keys: Seq<String>, entries: Seq<String>, n: int) -> bool {
    forall|k: Seq<char>|
        among(keys, k) <==> exists|j: int|
            0 <= j < n && !is_blank((#[trigger] entries[j])@) && extra_key(entries[j]@) == k
}

/// Collects the extra sensitive keys, and counts the blank entries.
fn collect_keys(entries: &[String]) -> (r: (Vec<String>, usize))
    ensures
        distinct(r.0@),
        forall|k: Seq<char>|
            among(r.0@, k) <==> exists|j: int|
                0 <= j < entries@.len() && !is_blank((#[trigger] entries@[j])@) && extra_key(
                    entries@[j]@,
                ) == k,
        r.1 == blanks(entries@, entries@.len() as int),
{
    let mut keys: Vec<String> = Vec::new();
    let mut blank: usize = 0;
    let mut i: usize = 0;
    while i < entries.len()
        invariant
            i <= entries@.len(),
            distinct(keys@),
            keys_match(keys@, entries@, i as int),
            blank == blanks(entries@, i as int),
            blank <= i,
        decreases entries@.len() - i,
    {
        let trimmed = text::trimmed(entries[i].as_str());
        let ghost before = keys@;
        if trimmed.as_str().is_empty() {
            blank += 1;
            proof {
                assert(keys_match(keys@, entries@, i + 1));
            }
        } else {
            let key = text::to_unicode_lower(trimmed.as_str());
            let ghost kv = key@;
            if !text::holds(&keys, key.as_str()) {
                keys.push(key);
                proof {
                    assert forall|k: Seq<char>| among(keys@, k) <==> among(before, k) || k
                        == kv by {
                        if among(before, k) {
                            let j = choose|j: int| 0 <= j < before.len() && (#[trigger] before[j])@ == k;
                            assert(keys@[j]@ == k);
                        }
                        if k == kv {
                            assert(keys@[before.len() as int]@ == k);
                        }
                        if among(keys@, k) {
                            let j = choose|j: int| 0 <= j < keys@.len() && (#[trigger] keys@[j])@ == k;
                            if j < before.len() {
                                assert(before[j]@ == k);
                            }
                        }
                    }
                }
            }
            proof {
                assert forall|k: Seq<char>|
                    among(keys@, k) <==> exists|j: int|
                        0 <= j < i + 1 && !is_blank((#[trigger] entries@[j])@) && extra_key(
                            entries@[j]@,
                        ) == k by {
                    if k == kv {
                        assert(!is_blank(entries@[i as int]@) && extra_key(entries@[i as int]@) == k);
                    }
                    if among(before, k) {
                        let j = choose|j: int|
                            0 <= j < i && !is_blank((#[trigger] entries@[j])@) && extra_key(
                                entries@[j]@,
                            ) == k;
                        assert(!is_blank(entries@[j]@));
                    }
                }
                assert(keys_match(keys@, entries@, i + 1));
            }
        }
        i += 1;
    }
    (keys, blank)
}

/// An optional setting as it is read.
fn read_setting(s: &Option<String>) -> (r: String)
    ensures
        r@ == setting(*s),
{
    match s {
        Some(v) => text::trimmed(v.as_str()),
        None => String::new(),
    }
}

/// How messages name the rule at position `i`.
fn name_rule(p: &PiiPatternConfig, i: usize) -> (r: String)
    requires
        i < usize::MAX,
    ensures
        r@ == rule_name(*p, i as int),
{
    let label = read_setting(&p.label);
    let mut out = String::new();
    if label.as_str().is_empty() {
        out.push('#');
        text::push_number(&mut out, i as u64 + 1, 10);
        proof {
            assert(out@ =~= seq!['#'] + text::decimal((i + 1) as nat));
        }
    } else {
        out.push('"');
        out.append(label.as_str());
        out.push('"');
        proof {
            assert(out@ =~= seq!['"'] + label@ + seq!['"']);
        }
    }
    out
}

/// The action that a setting names.
fn read_action(s: &str) -> (r: Option<PiiAction>)
    ensures
        r == action_of(s@),
{
    if s.is_empty() || text::lower_is(s, "redact") {
        Some(PiiAction::Redact)
    } else if text::lower_is(s, "hash") {
        Some(PiiAction::Hash)
    } else {
        None
    }
}

/// Whether the scope that a setting names takes in keys, and values.
fn read_scope(s: &str) -> (r: Option<(bool, bool)>)
    ensures
        r == scope_of(s@),
{
    if s.is_empty() || text::lower_is(s, "values") {
        Some((false, true))
    } else if text::lower_is(s, "keys") {
        Some((true, false))
    } else if text::lower_is(s, "both") {
        Some((true, true))
    } else {
        None
    }
}

/// Compiles the rule at position `i`.
fn compile_rule(p: &PiiPatternConfig, i: usize) -> (r: Result<CompiledPattern, PiiRuleError>)
    requires
        i < usize::MAX,
    ensures
        match r {
            Ok(c) => rule_outcome(*p, i as int) == Ok::<RuleModel, RuleFault>(c.model())
                && text::text_of(c.label) == text::text_of(p.label),
            Err(e) => rule_outcome(*p, i as int) == Err::<RuleModel, RuleFault>(e.view()),
        },
{
    let rule = name_rule(p, i);
    let trimmed = text::trimmed(p.pattern.as_str());
    if trimmed.as_str().is_empty() {
        return Err(PiiRuleError::EmptyPattern { rule });
    }
    let regex = match pattern::build(p.pattern.as_str(), true, PATTERN_SIZE_LIMIT) {
        Ok(regex) => regex,
        Err(cause) => {
            return Err(PiiRuleError::InvalidPattern { rule, cause });
        },
    };
    let action = read_setting(&p.action);
    let scope = read_setting(&p.scope);
    match read_action(action.as_str()) {
        None => Err(PiiRuleError::UnknownAction { rule, action }),
        Some(a) => match read_scope(scope.as_str()) {
            None => Err(PiiRuleError::UnknownScope { rule, scope }),
            Some((match_keys, match_values)) => {
                let label = match &p.label {
                    Some(l) => Some(l.clone()),
                    None => None,
                };
                Ok(CompiledPattern { regex, action: a, match_keys, match_values, label })
            },
        },
    }
}

/// The warnings that `n` blank entries give rise to.
pub open spec fn blank_warnings(n: nat) -> Seq<Seq<char>> {
    if n == 0 {
        Seq::empty()
    } else {
        seq![blank_warning(n)]
    }
}

/// Writes the warning about blank entries, where there are any.
fn warn_blanks(n: usize) -> (r: Vec<String>)
    ensures
        text::views(r@) == blank_warnings(n as nat),
{
    let mut warnings: Vec<String> = Vec::new();
    if n > 0 {
        let mut w = "customSensitiveKeys: ignored ".to_string();
        text::push_number(&mut w, n as u64, 10);
        w.append(" blank entr");
        if n == 1 {
            w.append("y");
        } else {
            w.append("ies");
        }
        warnings.push(w);
    }
    proof {
        assert(text::views(warnings@) =~= blank_warnings(n as nat));
    }
    warnings
}

/// The rules are those that the configuration asks for.
pub open spec fn rules_match(
    rules: CompiledPiiRules,
    extra_keys: Seq<String>,
    patterns: Seq<PiiPatternConfig>,
) -> bool {
    &&& distinct(rules.extra_keys@)
    &&& forall|k: Seq<char>| #[trigger]
        rules.has_extra_key(k) <==> exists|j: int|
            0 <= j < extra_keys.len() && !is_blank((#[trigger] extra_keys[j])@) && extra_key(
                extra_keys[j]@,
            ) == k
    &&& rules.patterns@.len() == patterns.len()
    &&& forall|i: int|
        0 <= i < patterns.len() ==> rule_outcome(#[trigger] patterns[i], i) == Ok::<
            RuleModel,
            RuleFault,
        >(rules.patterns@[i].model()) && text::text_of(rules.patterns@[i].label) == text::text_of(
            patterns[i].label,
        )
}

/// `fault` is that of the first rule that does not compile.
pub open spec fn first_fault(patterns: Seq<PiiPatternConfig>, fault: RuleFault) -> bool {
    exists|i: int|
        {
            &&& 0 <= i < patterns.len()
            &&& rule_outcome(#[trigger] patterns[i], i) == Err::<RuleModel, RuleFault>(fault)
            &&& forall|j: int| 0 <= j < i ==> rule_outcome(#[trigger] patterns[j], j) is Ok
        }
}

impl CompiledPiiRules {
    /// `k` is one of the extra sensitive keys.
    pub open spec fn has_extra_key(&self, k: Seq<char>) -> bool {
        among(self.extra_keys@, k)
    }

    /// There are no rules.
    pub open spec fn no_rules(&self) -> bool {
        self.extra_keys@.len() == 0 && self.patterns@.len() == 0
    }

    /// Some rule hashes what it matches.
    pub open spec fn hashes(&self) -> bool {
        exists|i: int|
            0 <= i < self.patterns@.len() && (#[trigger] self.patterns@[i]).action
                == PiiAction::Hash
    }

    /// Compiles configured rules. Beside the rules come warnings that do not
    /// stop a load. The first rule that does not compile decides the error.
    pub fn compile(extra_keys: &[String], patterns: &[PiiPatternConfig]) -> (r: Result<
        (CompiledPiiRules, Vec<String>),
        PiiRuleError,
    >)
        ensures
            match r {
                Ok((rules, warnings)) => rules_match(rules, extra_keys@, patterns@) && text::views(
                    warnings@,
                ) == blank_warnings(blanks(extra_keys@, extra_keys@.len() as int)),
                Err(e) => first_fault(patterns@, e.view()),
            },
    {
        let (keys, blank) = collect_keys(extra_keys);
        let warnings = warn_blanks(blank);
        let mut compiled: Vec<CompiledPattern> = Vec::new();
        let n: usize = patterns.len();
        let mut i: usize = 0;
        while i < n
            invariant
                i <= n == patterns@.len(),
                compiled@.len() == i,
                forall|j: int|
                    0 <= j < i ==> rule_outcome(#[trigger] patterns@[j], j) == Ok::<
                        RuleModel,
                        RuleFault,
                    >(compiled@[j].model()) && text::text_of(compiled@[j].label) == text::text_of(
                        patterns@[j].label,
                    ),
            decreases n - i,
        {
            match compile_rule(&patterns[i], i) {
                Ok(c) => {
                    compiled.push(c);
                },
                Err(e) => {
                    return Err(e);
                },
            }
            i += 1;
        }
        Ok((CompiledPiiRules { extra_keys: keys, patterns: compiled }, warnings))
    }

    /// Whether there are no rules.
    pub fn is_empty(&self) -> (r: bool)
        ensures
            r == self.no_rules(),
    {
        self.extra_keys.len() == 0 && self.patterns.len() == 0
    }

    /// Whether some rule hashes what it matches.
    pub fn has_hash_action(&self) -> (r: bool)
        ensures
            r == self.hashes(),
    {
        let mut i: usize = 0;
        while i < self.patterns.len()
            invariant
                i <= self.patterns@.len(),
                forall|j: int| 0 <= j < i ==> (#[trigger] self.patterns@[j]).action != PiiAction::Hash,
            decreases self.patterns@.len() - i,
        {
            if self.patterns[i].action == PiiAction::Hash {
                return true;
            }
            i += 1;
        }
        false
    }
}

impl Default for CompiledPiiRules {
    fn default() -> (r: CompiledPiiRules)
        ensures
            r.no_rules(),
    {
        CompiledPiiRules { extra_keys: Vec::new(), patterns: Vec::new() }
    }
}

/// The message of a fault.
pub open spec fn fault_message(f: RuleFault) -> Seq<char> {
    match f {
        RuleFault::EmptyPattern { rule } => "customPiiPatterns rule "@ + rule
            + ": pattern is empty"@,
        RuleFault::InvalidPattern { rule, cause } => "customPiiPatterns rule "@ + rule
            + ": invalid pattern"@,
        RuleFault::UnknownAction { rule, action } => "customPiiPatterns rule "@ + rule
            + ": unknown action "@ + text::debug_text(action)
            + " (expected \"redact\" or \"hash\")"@,
        RuleFault::UnknownScope { rule, scope } => "customPiiPatterns rule "@ + rule
            + ": unknown scope "@ + text::debug_text(scope)
            + " (expected \"keys\", \"values\", or \"both\")"@,
    }
}

/// The message of a fault with its cause, where it has one.
pub open spec fn full_fault_message(f: RuleFault) -> Seq<char> {
    match f {
        RuleFault::InvalidPattern { rule, cause } => fault_message(f) + ": "@ + cause,
        _ => fault_message(f),
    }
}

impl PiiRuleError {
    /// The message of the error.
    pub fn message(&self) -> (r: String)
        ensures
            r@ == fault_message(self.view()),
    {
        let mut out = "customPiiPatterns rule ".to_string();
        match self {
            PiiRuleError::EmptyPattern { rule } => {
                out.append(rule.as_str());
                out.append(": pattern is empty");
            },
            PiiRuleError::InvalidPattern { rule, cause } => {
                out.append(rule.as_str());
                out.append(": invalid pattern");
            },
            PiiRuleError::UnknownAction { rule, action } => {
                out.append(rule.as_str());
                out.append(": unknown action ");
                out.append(text::to_debug(action.as_str()).as_str());
                out.append(" (expected \"redact\" or \"hash\")");
            },
            PiiRuleError::UnknownScope { rule, scope } => {
                out.append(rule.as_str());
                out.append(": unknown scope ");
                out.append(text::to_debug(scope.as_str()).as_str());
                out.append(" (expected \"keys\", \"values\", or \"both\")");
            },
        }
        out
    }

    /// The message of the error, followed by its cause where it has one.
    pub fn full_message(&self) -> (r: String)
        ensures
            r@ == full_fault_message(self.view()),
    {
        let mut out = self.message();
        match self {
            PiiRuleError::InvalidPattern { rule, cause } => {
                out.append(": ");
                out.append(cause.as_str());
            },
            _ => {},
        }
        out
    }
}

// ---------------------------------------------------------------------------
// Laws
// ---------------------------------------------------------------------------

/// What a rule does with a match: it redacts where its action says so or says
/// nothing, hashes where it says that, and any other action is refused. The action
/// is read in whatever case and with whatever white space around it.
pub proof fn law_which_action_a_rule_takes(p: PiiPatternConfig, i: int)
    ensures
        ({
            let action = match p.action {
                Some(s) => text::lower(text::trim(s@)),
                None => Seq::empty(),
            };
            match rule_outcome(p, i) {
                Ok(m) => {
                    &&& m.action == PiiAction::Redact <==> action == "redact"@ || action.len() == 0
                    &&& m.action == PiiAction::Hash <==> action == "hash"@
                },
                Err(RuleFault::UnknownAction { rule, action: said }) => {
                    &&& action != "redact"@ && action != "hash"@ && action.len() > 0
                    &&& text::lower(said) == action
                },
                Err(_) => true,
            }
        }),
{
    reveal_strlit("redact");
    reveal_strlit("hash");
    assert("redact"@.len() == 6);
    assert("hash"@.len() == 4);
    assert(text::lower(Seq::empty()) =~= Seq::<char>::empty());
}

/// Where a rule looks: at values where its scope says so or says nothing, at keys
/// where it says that, at both where it says that; any other scope is refused.
pub proof fn law_where_a_rule_looks(p: PiiPatternConfig, i: int)
    ensures
        ({
            let scope = match p.scope {
                Some(s) => text::lower(text::trim(s@)),
                None => Seq::empty(),
            };
            match rule_outcome(p, i) {
                Ok(m) => {
                    &&& m.match_values <==> scope == "values"@ || scope == "both"@ || scope.len()
                        == 0
                    &&& m.match_keys <==> scope == "keys"@ || scope == "both"@
                    &&& m.match_keys || m.match_values
                },
                Err(RuleFault::UnknownScope { rule, scope: said }) => {
                    &&& scope != "values"@ && scope != "keys"@ && scope != "both"@ && scope.len() > 0
                    &&& text::lower(said) == scope
                },
                Err(_) => true,
            }
        }),
{
    reveal_strlit("values");
    reveal_strlit("keys");
    reveal_strlit("both");
    assert("values"@.len() == 6);
    assert("keys"@.len() == 4 && "keys"@[0] == 'k');
    assert("both"@.len() == 4 && "both"@[0] == 'b');
    assert(text::lower(Seq::empty()) =~= Seq::<char>::empty());
}

/// A rule compiles exactly where its pattern is not blank and is a regular
/// expression within the bound, and its action and scope are known. It then matches
/// with its pattern as configured.
pub proof fn law_which_rules_compile(p: PiiPatternConfig, i: int)
    ensures
        ({
            let built = pattern::built(p.pattern@, true, 1_048_576);
            let action = match p.action {
                Some(s) => text::lower(text::trim(s@)),
                None => Seq::empty(),
            };
            let scope = match p.scope {
                Some(s) => text::lower(text::trim(s@)),
                None => Seq::empty(),
            };
            let blank = text::trim(p.pattern@).len() == 0;
            let acts = action.len() == 0 || action == "redact"@ || action == "hash"@;
            let looks = scope.len() == 0 || scope == "values"@ || scope == "keys"@ || scope
                == "both"@;
            &&& rule_outcome(p, i) is Ok <==> !blank && built is Ok && acts && looks
            &&& rule_outcome(p, i) matches Ok(m) ==> built == Ok::<regex_lite::Regex, Seq<char>>(
                m.regex,
            )
            &&& (rule_outcome(p, i) matches Err(f) && f is EmptyPattern) <==> blank
            &&& (rule_outcome(p, i) matches Err(f) && f is InvalidPattern) <==> !blank && built is Err
            &&& (rule_outcome(p, i) matches Err(f) && f is UnknownAction) <==> !blank && built is Ok
                && !acts
            &&& (rule_outcome(p, i) matches Err(f) && f is UnknownScope) <==> !blank && built is Ok
                && acts && !looks
        }),
{
    assert(text::lower(Seq::empty()) =~= Seq::<char>::empty());
}

/// A configured key counts trimmed and in lowercase, whichever entry names it; a
/// blank entry adds no key.
pub proof fn law_every_configured_key_counts(
    rules: CompiledPiiRules,
    extra_keys: Seq<String>,
    patterns: Seq<PiiPatternConfig>,
    i: int,
)
    requires
        rules_match(rules, extra_keys, patterns),
        0 <= i < extra_keys.len(),
        text::trim(extra_keys[i]@).len() > 0,
    ensures
        rules.has_extra_key(text::unicode_lower(text::trim(extra_keys[i]@))),
{
    assert(!is_blank(extra_keys[i]@));
}

/// No key comes from anywhere but the configured entries, and no rule but the
/// configured ones runs, each in its place.
pub proof fn law_no_other_rule_counts(
    rules: CompiledPiiRules,
    extra_keys: Seq<String>,
    patterns: Seq<PiiPatternConfig>,
    k: Seq<char>,
)
    requires
        rules_match(rules, extra_keys, patterns),
        rules.has_extra_key(k),
    ensures
        exists|i: int|
            0 <= i < extra_keys.len() && text::trim((#[trigger] extra_keys[i])@).len() > 0
                && text::unicode_lower(text::trim(extra_keys[i]@)) == k,
        rules.patterns@.len() == patterns.len(),
{
    let j = choose|j: int|
        0 <= j < extra_keys.len() && !is_blank((#[trigger] extra_keys[j])@) && extra_key(
            extra_keys[j]@,
        ) == k;
    assert(text::trim(extra_keys[j]@).len() > 0);
}

/// Each blank entry is counted once.
pub proof fn law_blank_entries_are_counted(entries: Seq<String>, n: int)
    requires
        0 <= n < entries.len(),
    ensures
        blanks(entries, 0) == 0,
        text::trim(entries[n]@).len() == 0 ==> blanks(entries, n + 1) == blanks(entries, n) + 1,
        text::trim(entries[n]@).len() > 0 ==> blanks(entries, n + 1) == blanks(entries, n),
        blank_warnings(0).len() == 0,
        blanks(entries, n) > 0 ==> blank_warnings(blanks(entries, n)).len() == 1,
{
}

/// A rule is named by its label where it has one, and else by its position, counted
/// from one.
pub proof fn law_how_a_rule_is_named(p: PiiPatternConfig, i: int)
    requires
        i >= 0,
    ensures
        p.label matches Some(s) && text::trim(s@).len() > 0 ==> rule_name(p, i) == seq!['"']
            + text::trim((p.label->0)@) + seq!['"'],
        (p.label matches Some(s) ==> text::trim(s@).len() == 0) ==> rule_name(p, i) == seq!['#']
            + text::decimal((i + 1) as nat),
{
}

/// Every message of a fault names the rule, and says what is wrong with it; it
/// holds the cause only in full, and behind the rest.
pub proof fn law_messages_name_the_rule(rule: Seq<char>, cause: Seq<char>, said: Seq<char>)
    ensures
        ({
            let start = "customPiiPatterns rule "@ + rule;
            let empty = RuleFault::EmptyPattern { rule };
            let invalid = RuleFault::InvalidPattern { rule, cause };
            let action = RuleFault::UnknownAction { rule, action: said };
            let scope = RuleFault::UnknownScope { rule, scope: said };
            &&& text::starts_with(fault_message(empty), start)
            &&& text::starts_with(fault_message(invalid), start)
            &&& text::starts_with(fault_message(action), start)
            &&& text::starts_with(fault_message(scope), start)
            &&& text::contains(fault_message(action), text::debug_text(said))
            &&& text::contains(fault_message(scope), text::debug_text(said))
            &&& full_fault_message(invalid) == fault_message(invalid) + ": "@ + cause
            &&& full_fault_message(action) == fault_message(action)
            &&& full_fault_message(scope) == fault_message(scope)
            &&& full_fault_message(empty) == fault_message(empty)
        }),
{
    let start = "customPiiPatterns rule "@ + rule;
    let q = text::debug_text(said);
    let action = fault_message(RuleFault::UnknownAction { rule, action: said });
    let scope = fault_message(RuleFault::UnknownScope { rule, scope: said });
    let a = (start + ": unknown action "@).len() as int;
    let b = (start + ": unknown scope "@).len() as int;
    assert(action.subrange(a, a + q.len()) =~= q);
    assert(text::occurs_at(action, q, a));
    assert(scope.subrange(b, b + q.len()) =~= q);
    assert(text::occurs_at(scope, q, b));
    let n = start.len() as int;
    let empty = fault_message(RuleFault::EmptyPattern { rule });
    let invalid = fault_message(RuleFault::InvalidPattern { rule, cause });
    assert(empty.subrange(0, n) =~= start);
    assert(invalid.subrange(0, n) =~= start);
    assert(action.subrange(0, n) =~= start);
    assert(scope.subrange(0, n) =~= start);
}

} // verus!
