//! Validation of a state: rules on single fields, validators over the
//! whole state, their composition, and a node that reports the issues.
use vstd::prelude::*;
use crate::channel::Slot;
use crate::graph::{RuntimeNodeAction, RuntimeNodeFn};
use crate::json::{json_of, Json, StrMap, Value};
use crate::runtime::{NodeOutput, RuntimeContext};
use crate::state::{json_map, State};
use crate::text::{concat3, decimal, owned, u64_to_decimal};
use vstd::utf8::encode_utf8;

verus! {

/// A problem found in a state: the field it concerns (if any), a code and
/// a message.
#[derive(Debug, PartialEq)]
pub struct ValidationIssue {
    pub field: Option<String>,
    pub code: String,
    pub message: String,
}

/// The content of an issue.
pub struct IssueView {
    pub field: Option<Seq<char>>,
    pub code: Seq<char>,
    pub message: Seq<char>,
}

impl View for ValidationIssue {
    type V = IssueView;

    open spec fn view(&self) -> IssueView {
        IssueView {
            field: match self.field {
                Some(f) => Some(f@),
                None => None,
            },
            code: self.code@,
            message: self.message@,
        }
    }
}

/// The contents of a sequence of issues.
pub open spec fn issues_view(s: Seq<ValidationIssue>) -> Seq<IssueView> {
    s.map_values(|i: ValidationIssue| i@)
}

/// An issue as a value: an object with `field` (null when absent), `code`
/// and `message`.
pub open spec fn issue_json(i: IssueView) -> Map<Seq<char>, Json> {
    Map::<Seq<char>, Json>::empty().insert(
        "field"@,
        match i.field {
            Some(f) => Json::Text(f),
            None => Json::Null,
        },
    ).insert("code"@, Json::Text(i.code)).insert("message"@, Json::Text(i.message))
}

impl ValidationIssue {
    pub fn new(field: Option<&str>, code: &str, message: &str) -> (r: Self)
        ensures
            r@ == (IssueView {
                field: match field {
                    Some(f) => Some(f@),
                    None => None,
                },
                code: code@,
                message: message@,
            }),
    {
        let field = match field {
            Some(f) => Some(owned(f)),
            None => None,
        };
        ValidationIssue { field, code: owned(code), message: owned(message) }
    }

    /// A copy of this issue.
    pub fn copy(&self) -> (r: Self)
        ensures
            r@ == self@,
    {
        ValidationIssue { field: self.field.clone(), code: self.code.clone(), message: self.message.clone() }
    }

    /// This issue as an object value.
    pub fn to_value(&self) -> (v: Value)
        ensures
            v matches Value::Object(m) && json_map(m) == issue_json(self@),
    {
        let mut m = StrMap::new();
        let field = match &self.field {
            Some(f) => Value::String(f.clone()),
            None => Value::Null,
        };
        m.insert(owned("field"), field);
        m.insert(owned("code"), Value::String(self.code.clone()));
        m.insert(owned("message"), Value::String(self.message.clone()));
        proof {
            assert(json_map(m) =~= issue_json(self@));
        }
        Value::Object(m)
    }
}

/// A check of a field's value, written by the user of a rule.
pub trait RuleCheck {
    /// Whether the check may find `issue` (`None`: no issue) in `value`.
    /// A check that does not say more promises nothing.
    open spec fn finds(&self, value: Option<Value>, issue: Option<IssueView>) -> bool {
        true
    }

    fn check(&self, value: Option<&Value>) -> (r: Result<(), ValidationIssue>)
        ensures
            self.finds(
                match value {
                    Some(v) => Some(*v),
                    None => None,
                },
                issue_of(r),
            ),
    ;
}

/// The issue a check's result holds, if any.
pub open spec fn issue_of(r: Result<(), ValidationIssue>) -> Option<IssueView> {
    match r {
        Ok(_) => None,
        Err(i) => Some(i@),
    }
}

pub type ValidationRuleFn = Box<dyn RuleCheck>;

/// What a rule checks.
pub enum RuleKind {
    Required,
    StringMinLen(usize),
    Custom(Slot<ValidationRuleFn>),
}

/// A rule on one field of the state.
pub struct ValidationRule {
    field: String,
    kind: RuleKind,
}

/// The issue a field is missing with.
pub open spec fn required_issue(field: Seq<char>) -> IssueView {
    IssueView { field: Some(field), code: "required"@, message: "field `"@ + field + "` is required"@ }
}

/// What a built-in rule finds in the value of `field`: `required` wants a
/// non-null value; `string_min_len` wants a string of at least `n` bytes.
pub open spec fn builtin_verdict(field: Seq<char>, kind: RuleKind, value: Option<Value>) -> Option<IssueView> {
    match kind {
        RuleKind::Required => match value {
            None => Some(required_issue(field)),
            Some(Value::Null) => Some(required_issue(field)),
            Some(_) => None,
        },
        RuleKind::StringMinLen(n) => match value {
            None => Some(required_issue(field)),
            Some(Value::String(t)) => if encode_utf8(t@).len() < n {
                Some(
                    IssueView {
                        field: Some(field),
                        code: "min_length"@,
                        message: "field `"@ + field + "` must be at least "@ + decimal(n as nat) + " characters"@,
                    },
                )
            } else {
                None
            },
            Some(_) => Some(
                IssueView { field: Some(field), code: "type_error"@, message: "field `"@ + field + "` must be a string"@ },
            ),
        },
        RuleKind::Custom(_) => None,
    }
}

impl ValidationRule {
    /// The field this rule checks.
    pub closed spec fn field_view(self) -> Seq<char> {
        self.field@
    }

    /// Whether the rule's check is one written by its user.
    pub closed spec fn is_custom(self) -> bool {
        self.kind is Custom
    }

    /// What a built-in rule finds in `value`.
    pub closed spec fn verdict(self, value: Option<Value>) -> Option<IssueView> {
        builtin_verdict(self.field@, self.kind, value)
    }

    /// Whether the rule may find `issue` (`None`: no issue) in `value`: a
    /// built-in rule finds exactly its verdict; a rule of the user's finds
    /// what its check may find.
    pub closed spec fn allows(self, value: Option<Value>, issue: Option<IssueView>) -> bool {
        match self.kind {
            RuleKind::Custom(c) => c.0.finds(value, issue),
            _ => issue == builtin_verdict(self.field@, self.kind, value),
        }
    }

    /// A rule on `field` with a check of the user's.
    pub fn new(field: &str, validate: ValidationRuleFn) -> (r: Self)
        ensures
            r.field_view() == field@,
            r.is_custom(),
            forall|value: Option<Value>, issue: Option<IssueView>| #[trigger] r.allows(value, issue)
                == validate.finds(value, issue),
    {
        let ghost given = validate;
        let held = Slot(validate);
        assert(held.0 == given);
        let kind = RuleKind::Custom(held);
        ValidationRule { field: owned(field), kind }
    }

    /// The field this rule checks.
    pub fn field(&self) -> (r: &str)
        ensures
            r@ == self.field_view(),
    {
        self.field.as_str()
    }

    /// A rule that `field` is present and not null.
    pub fn required(field: &str) -> (r: Self)
        ensures
            r.field_view() == field@,
            !r.is_custom(),
            forall|v: Option<Value>| #[trigger] r.verdict(v) == builtin_verdict(field@, RuleKind::Required, v),
    {
        ValidationRule { field: owned(field), kind: RuleKind::Required }
    }

    /// A rule that `field` is a string of at least `min_len` bytes.
    pub fn string_min_len(field: &str, min_len: usize) -> (r: Self)
        ensures
            r.field_view() == field@,
            !r.is_custom(),
            forall|v: Option<Value>| #[trigger] r.verdict(v) == builtin_verdict(field@, RuleKind::StringMinLen(min_len), v),
    {
        ValidationRule { field: owned(field), kind: RuleKind::StringMinLen(min_len) }
    }

    /// Checks the value of this rule's field.
    pub fn validate(&self, value: Option<&Value>) -> (r: Result<(), ValidationIssue>)
        ensures
            self.allows(
                match value {
                    Some(v) => Some(*v),
                    None => None,
                },
                issue_of(r),
            ),
            !self.is_custom() ==> match self.verdict(
                match value {
                    Some(v) => Some(*v),
                    None => None,
                },
            ) {
                Some(issue) => r matches Err(i) && i@ == issue,
                None => r is Ok,
            },
    {
        match &self.kind {
            RuleKind::Required => match value {
                None => Err(self.required_issue()),
                Some(Value::Null) => Err(self.required_issue()),
                Some(_) => Ok(()),
            },
            RuleKind::StringMinLen(n) => match value {
                None => Err(self.required_issue()),
                Some(Value::String(t)) => {
                    let ts = t.as_str();
                    let byte_len = ts.as_bytes().len();
                    if byte_len < *n {
                        let count = u64_to_decimal(*n as u64);
                        let mut message = concat3("field `", self.field.as_str(), "` must be at least ");
                        message.append(count.as_str());
                        message.append(" characters");
                        assert(message@ == "field `"@ + self.field@ + "` must be at least "@ + decimal(*n as nat) + " characters"@);
                        Err(ValidationIssue { field: Some(self.field.clone()), code: owned("min_length"), message })
                    } else {
                        Ok(())
                    }
                },
                Some(_) => Err(
                    ValidationIssue {
                        field: Some(self.field.clone()),
                        code: owned("type_error"),
                        message: concat3("field `", self.field.as_str(), "` must be a string"),
                    },
                ),
            },
            RuleKind::Custom(check) => check.0.check(value),
        }
    }

    fn required_issue(&self) -> (r: ValidationIssue)
        ensures
            r@ == required_issue(self.field@),
    {
        ValidationIssue {
            field: Some(self.field.clone()),
            code: owned("required"),
            message: concat3("field `", self.field.as_str(), "` is required"),
        }
    }
}

/// Finds the issues of a state.
pub trait Validator {
    /// Whether the validator may find `issues` in `state`.  A validator
    /// that does not say more promises nothing.
    open spec fn finds_issues(&self, state: Map<Seq<char>, Value>, issues: Seq<IssueView>) -> bool {
        true
    }

    fn validate(&self, state: &State) -> (r: Vec<ValidationIssue>)
        ensures
            self.finds_issues(state@, issues_view(r@)),
    ;
}

/// The issues among `found`, in order.
pub open spec fn present(found: Seq<Option<IssueView>>) -> Seq<IssueView>
    decreases found.len(),
{
    if found.len() == 0 {
        Seq::empty()
    } else {
        match found.last() {
            Some(i) => present(found.drop_last()).push(i),
            None => present(found.drop_last()),
        }
    }
}

/// Whether `issues` are what `rules` may find in `state`: each rule, in
/// order, checks its field's value, and the issues found are kept in order.
pub open spec fn rules_find(rules: Seq<ValidationRule>, state: Map<Seq<char>, Value>, issues: Seq<IssueView>) -> bool {
    exists|found: Seq<Option<IssueView>>|
        found.len() == rules.len() && (forall|i: int|
            0 <= i < rules.len() ==> (#[trigger] rules[i]).allows(field_value(state, rules[i].field_view()), found[i]))
            && issues == #[trigger] present(found)
}

pub type ValidatorRef = Box<dyn Validator>;

#[derive(Clone, Copy, Debug, PartialEq, Eq, Structural)]
pub enum CompositeMode {
    All,
    Any,
}

/// The value a state has for `field`, if any.
pub open spec fn field_value(state: Map<Seq<char>, Value>, field: Seq<char>) -> Option<Value> {
    if state.contains_key(field) {
        Some(state[field])
    } else {
        None
    }
}

/// What built-in rules find in a state, in rule order.
pub open spec fn rules_issues(rules: Seq<ValidationRule>, state: Map<Seq<char>, Value>) -> Seq<IssueView>
    decreases rules.len(),
{
    if rules.len() == 0 {
        Seq::empty()
    } else {
        let rest = rules_issues(rules.drop_last(), state);
        match rules.last().verdict(field_value(state, rules.last().field_view())) {
            Some(issue) => rest.push(issue),
            None => rest,
        }
    }
}

/// Checks a state against a list of rules, each on its own field.
pub struct RuleSetValidator {
    rules: Vec<ValidationRule>,
}

impl RuleSetValidator {
    /// The rules, in the order they were added.
    pub closed spec fn rules(self) -> Seq<ValidationRule> {
        self.rules@
    }

    /// Whether every rule is a built-in one.
    pub open spec fn all_builtin(self) -> bool {
        forall|i: int| 0 <= i < self.rules().len() ==> !(#[trigger] self.rules()[i]).is_custom()
    }

    pub fn new() -> (r: Self)
        ensures
            r.rules() == Seq::<ValidationRule>::empty(),
    {
        RuleSetValidator { rules: Vec::new() }
    }

    pub fn add_rule(&mut self, rule: ValidationRule)
        ensures
            final(self).rules() == old(self).rules().push(rule),
    {
        self.rules.push(rule);
    }

    /// This validator, to be held with others.
    pub fn into_ref(self) -> (r: ValidatorRef)
        ensures
            forall|state: Map<Seq<char>, Value>, issues: Seq<IssueView>| #[trigger] r.finds_issues(state, issues)
                == rules_find(self.rules(), state, issues),
    {
        return Box::new(self);
    }
}

impl Validator for RuleSetValidator {
    /// As [`rules_find`] says of the rules.
    open spec fn finds_issues(&self, state: Map<Seq<char>, Value>, issues: Seq<IssueView>) -> bool {
        rules_find(self.rules(), state, issues)
    }

    /// The issues of the rules that fail, in rule order.
    fn validate(&self, state: &State) -> (r: Vec<ValidationIssue>)
        ensures
            r@.len() <= self.rules().len(),
            self.all_builtin() ==> issues_view(r@) == rules_issues(self.rules(), state@),
    {
        let mut issues: Vec<ValidationIssue> = Vec::new();
        let ghost mut found: Seq<Option<IssueView>> = Seq::empty();
        let mut i: usize = 0;
        while i < self.rules.len()
            invariant
                i <= self.rules@.len(),
                issues@.len() <= i,
                self.all_builtin() ==> issues_view(issues@) == rules_issues(self.rules@.subrange(0, i as int), state@),
                found.len() == i,
                forall|j: int| 0 <= j < i ==> (#[trigger] self.rules@[j]).allows(
                    field_value(state@, self.rules@[j].field_view()),
                    found[j],
                ),
                issues_view(issues@) == present(found),
            decreases self.rules@.len() - i,
        {
            let rule = &self.rules[i];
            let ghost before = issues@;
            proof {
                assert(self.rules@.subrange(0, i + 1).drop_last() =~= self.rules@.subrange(0, i as int));
                assert(self.rules@.subrange(0, i + 1).last() == self.rules@[i as int]);
            }
            let value = state.get(rule.field());
            proof {
                assert((match value {
                    Some(v) => Some(*v),
                    None => None,
                }) == field_value(state@, rule.field_view()));
                if self.all_builtin() {
                    assert(!self.rules()[i as int].is_custom());
                }
            }
            let verdict = rule.validate(value);
            proof {
                let old_found = found;
                found = old_found.push(issue_of(verdict));
                assert(found.drop_last() =~= old_found);
                assert forall|j: int| 0 <= j < i + 1 implies (#[trigger] self.rules@[j]).allows(
                    field_value(state@, self.rules@[j].field_view()),
                    found[j],
                ) by {
                    if j < i {
                        assert(found[j] == old_found[j]);
                    }
                }
            }
            match verdict {
                Ok(()) => {},
                Err(issue) => {
                    issues.push(issue);
                    proof {
                        assert(issues_view(issues@) =~= issues_view(before).push(issues@.last()@));
                    }
                },
            }
            i = i + 1;
        }
        proof {
            assert(self.rules@.subrange(0, self.rules@.len() as int) =~= self.rules@);
            assert(rules_find(self.rules(), state@, issues_view(issues@)));
        }
        issues
    }
}

/// The issues of several validators one after another.
pub open spec fn flatten_issues(results: Seq<Seq<IssueView>>) -> Seq<IssueView>
    decreases results.len(),
{
    if results.len() == 0 {
        Seq::empty()
    } else {
        flatten_issues(results.drop_last()) + results.last()
    }
}

/// How the results of several validators combine: all of their issues; in
/// `Any` mode none as soon as one validator found none.
pub open spec fn combined_issues(mode: CompositeMode, results: Seq<Seq<IssueView>>) -> Seq<IssueView> {
    match mode {
        CompositeMode::All => flatten_issues(results),
        CompositeMode::Any => if exists|i: int| 0 <= i < results.len() && (#[trigger] results[i]).len() == 0 {
            Seq::empty()
        } else {
            flatten_issues(results)
        },
    }
}

proof fn lemma_flatten_empty(results: Seq<Seq<IssueView>>)
    ensures
        flatten_issues(results).len() == 0 <==> forall|i: int| 0 <= i < results.len() ==> (#[trigger] results[i]).len() == 0,
    decreases results.len(),
{
    if results.len() > 0 {
        lemma_flatten_empty(results.drop_last());
        if flatten_issues(results).len() == 0 {
            assert forall|i: int| 0 <= i < results.len() implies (#[trigger] results[i]).len() == 0 by {
                if i < results.len() - 1 {
                    assert(results[i] == results.drop_last()[i]);
                }
            }
        }
        if forall|i: int| 0 <= i < results.len() ==> (#[trigger] results[i]).len() == 0 {
            assert(results.last().len() == 0);
            assert forall|i: int| 0 <= i < results.drop_last().len() implies (#[trigger] results.drop_last()[i]).len() == 0 by {
                assert(results.drop_last()[i] == results[i]);
            }
        }
    }
}

/// A composite in `All` mode passes exactly when every part passes; in
/// `Any` mode exactly when some part passes or it has no parts.
pub proof fn law_composite_passes(results: Seq<Seq<IssueView>>)
    ensures
        combined_issues(CompositeMode::All, results).len() == 0 <==> forall|i: int|
            0 <= i < results.len() ==> (#[trigger] results[i]).len() == 0,
        combined_issues(CompositeMode::Any, results).len() == 0 <==> results.len() == 0 || exists|i: int|
            0 <= i < results.len() && (#[trigger] results[i]).len() == 0,
{
    lemma_flatten_empty(results);
}

/// Combines the issues that several validators found, as `mode` says.
pub fn combine_issues(mode: CompositeMode, results: Vec<Vec<ValidationIssue>>) -> (r: Vec<ValidationIssue>)
    ensures
        issues_view(r@) == combined_issues(mode, results@.map_values(|v: Vec<ValidationIssue>| issues_view(v@))),
{
    let ghost rs = results@.map_values(|v: Vec<ValidationIssue>| issues_view(v@));
    let total = results.len();
    let mut all: Vec<ValidationIssue> = Vec::new();
    let mut has_success = false;
    let mut rest = results;
    let ghost n = rs.len();
    let mut i: usize = 0;
    while rest.len() > 0
        invariant
            i + rest@.len() == n,
            n == rs.len(),
            n == total,
            forall|j: int| 0 <= j < rest@.len() ==> issues_view((#[trigger] rest@[j])@) == rs[i + j],
            issues_view(all@) == flatten_issues(rs.subrange(0, i as int)),
            has_success == exists|j: int| 0 <= j < i && (#[trigger] rs[j]).len() == 0,
        decreases rest@.len(),
    {
        let ghost before = rest@;
        let mut issues = rest.remove(0);
        proof {
            assert(issues_view(issues@) == rs[i as int]);
            assert forall|j: int| 0 <= j < rest@.len() implies issues_view((#[trigger] rest@[j])@) == rs[i + 1 + j] by {
                assert(rest@[j] == before[j + 1]);
            }
            assert(rs.subrange(0, i + 1).drop_last() =~= rs.subrange(0, i as int));
        }
        if issues.len() == 0 {
            has_success = true;
        }
        let ghost prev = all@;
        all.append(&mut issues);
        proof {
            assert(issues_view(all@) =~= issues_view(prev) + rs[i as int]);
            assert(has_success == exists|j: int| 0 <= j < i + 1 && (#[trigger] rs[j]).len() == 0) by {
                if rs[i as int].len() == 0 {
                    assert(0 <= i < i + 1 && rs[i as int].len() == 0);
                }
            }
        }
        i = i + 1;
    }
    proof {
        assert(rs.subrange(0, n as int) =~= rs);
    }
    match mode {
        CompositeMode::All => all,
        CompositeMode::Any => if has_success {
            Vec::new()
        } else {
            all
        },
    }
}

/// A validator made of others: it reports all their issues, or in `Any`
/// mode nothing as soon as one of them finds nothing.
pub struct CompositeValidator {
    validators: Vec<ValidatorRef>,
    mode: CompositeMode,
}

impl CompositeValidator {
    /// How the parts' results are combined.
    pub closed spec fn mode(self) -> CompositeMode {
        self.mode
    }

    /// The number of parts.
    pub closed spec fn parts(self) -> nat {
        self.validators@.len()
    }

    /// What part `i` may find in `state`.
    pub closed spec fn part_finds(self, i: int, state: Map<Seq<char>, Value>, issues: Seq<IssueView>) -> bool {
        self.validators@[i].finds_issues(state, issues)
    }

    /// A validator reporting the issues of all `validators`.
    pub fn all(validators: Vec<ValidatorRef>) -> (r: Self)
        ensures
            r.mode() == CompositeMode::All,
            r.parts() == validators@.len(),
            forall|i: int, state: Map<Seq<char>, Value>, issues: Seq<IssueView>|
                0 <= i < validators@.len() ==> #[trigger] r.part_finds(i, state, issues)
                    == validators@[i].finds_issues(state, issues),
    {
        let ghost given = validators@;
        let r = CompositeValidator { validators, mode: CompositeMode::All };
        assert(r.validators@ == given);
        r
    }

    /// A validator that passes when any of `validators` passes.
    pub fn any(validators: Vec<ValidatorRef>) -> (r: Self)
        ensures
            r.mode() == CompositeMode::Any,
            r.parts() == validators@.len(),
            forall|i: int, state: Map<Seq<char>, Value>, issues: Seq<IssueView>|
                0 <= i < validators@.len() ==> #[trigger] r.part_finds(i, state, issues)
                    == validators@[i].finds_issues(state, issues),
    {
        let ghost given = validators@;
        let r = CompositeValidator { validators, mode: CompositeMode::Any };
        assert(r.validators@ == given);
        r
    }

    /// This validator, to be held with others.
    pub fn into_ref(self) -> (r: ValidatorRef)
        ensures
            forall|state: Map<Seq<char>, Value>, issues: Seq<IssueView>| #[trigger] r.finds_issues(state, issues)
                == self.finds_issues(state, issues),
    {
        return Box::new(self);
    }
}

impl Validator for CompositeValidator {
    /// Each part finds what it may, and the results combine as the mode
    /// says.
    open spec fn finds_issues(&self, state: Map<Seq<char>, Value>, issues: Seq<IssueView>) -> bool {
        exists|results: Seq<Seq<IssueView>>|
            results.len() == self.parts() && (forall|i: int|
                0 <= i < results.len() ==> self.part_finds(i, state, #[trigger] results[i])) && issues
                == #[trigger] combined_issues(self.mode(), results)
    }

    /// The parts' issues, combined as the mode says.
    fn validate(&self, state: &State) -> (r: Vec<ValidationIssue>)
        ensures
            exists|results: Seq<Seq<IssueView>>|
                results.len() == self.parts() && issues_view(r@) == #[trigger] combined_issues(self.mode(), results),
    {
        let mut results: Vec<Vec<ValidationIssue>> = Vec::new();
        let mut i: usize = 0;
        while i < self.validators.len()
            invariant
                i <= self.validators@.len(),
                results@.len() == i,
                forall|j: int| 0 <= j < i ==> self.part_finds(j, state@, issues_view(#[trigger] results@[j]@)),
            decreases self.validators@.len() - i,
        {
            let found = self.validators[i].validate(state);
            proof {
                assert(self.part_finds(i as int, state@, issues_view(found@)));
            }
            results.push(found);
            i = i + 1;
        }
        let ghost rs = results@.map_values(|v: Vec<ValidationIssue>| issues_view(v@));
        let r = combine_issues(self.mode, results);
        proof {
            assert(rs.len() == self.parts());
            assert forall|j: int| 0 <= j < rs.len() implies self.part_finds(j, state@, #[trigger] rs[j]) by {
                assert(rs[j] == issues_view(results@[j]@));
            }
        }
        r
    }
}

#[derive(Debug, PartialEq, Eq)]
pub struct ValidationConfig {
    pub errors_key: String,
    pub report_key: String,
}

impl Default for ValidationConfig {
    /// Errors under `validation_errors`, the report under `validation_report`.
    fn default() -> (r: Self)
        ensures
            r.errors_key@ == "validation_errors"@,
            r.report_key@ == "validation_report"@,
    {
        ValidationConfig { errors_key: owned("validation_errors"), report_key: owned("validation_report") }
    }
}

/// Whether `patch` reports `issues`: their messages as an array of strings
/// under the errors key, and under the report key an object with `valid`
/// (whether there are none) and `issues` (each issue as an object).
pub open spec fn reports(errors_key: Seq<char>, report_key: Seq<char>, issues: Seq<IssueView>, patch: StrMap<Value>) -> bool {
    &&& patch@.dom() == Set::<Seq<char>>::empty().insert(errors_key).insert(report_key)
    &&& errors_key != report_key ==> patch@[errors_key]@ == Json::Array(
        issues.map_values(|i: IssueView| Json::Text(i.message)),
    )
    &&& patch@[report_key] matches Value::Object(m) && {
        &&& m@.dom() == Set::<Seq<char>>::empty().insert("valid"@).insert("issues"@)
        &&& m@["valid"@] == Value::Bool(issues.len() == 0)
        &&& m@["issues"@] matches Value::Array(items) && items@.len() == issues.len() && forall|k: int|
            0 <= k < issues.len() ==> (#[trigger] items@[k] matches Value::Object(o) && json_map(o) == issue_json(
                issues[k],
            ))
    }
}

/// The output that reports `issues` under the keys of `config`.
pub fn report_output(config: &ValidationConfig, issues: &Vec<ValidationIssue>) -> (r: NodeOutput)
    ensures
        r.commands@.len() == 0,
        reports(config.errors_key@, config.report_key@, issues_view(issues@), r.patch),
{
    let mut messages: Vec<Value> = Vec::new();
    let mut values: Vec<Value> = Vec::new();
    let mut i: usize = 0;
    while i < issues.len()
        invariant
            i <= issues@.len(),
            messages@.len() == i,
            values@.len() == i,
            forall|k: int| 0 <= k < i ==> (#[trigger] messages@[k]) == Value::String(issues@[k].message),
            forall|k: int| 0 <= k < i ==> (#[trigger] values@[k] matches Value::Object(o) && json_map(o) == issue_json(
                issues@[k]@,
            )),
        decreases issues@.len() - i,
    {
        messages.push(Value::String(issues[i].message.clone()));
        values.push(issues[i].to_value());
        i = i + 1;
    }
    let ghost iv = issues_view(issues@);
    let ghost msgs = messages@;
    let ghost vals = values@;
    let mut report = StrMap::new();
    report.insert(owned("valid"), Value::Bool(issues.len() == 0));
    report.insert(owned("issues"), Value::Array(values));
    proof {
        reveal_strlit("valid");
        reveal_strlit("issues");
        assert("valid"@[0] != "issues"@[0]);
    }
    let mut patch = StrMap::new();
    patch.insert(config.errors_key.clone(), Value::Array(messages));
    patch.insert(config.report_key.clone(), Value::Object(report));
    proof {
        assert(patch@.dom() =~= Set::<Seq<char>>::empty().insert(config.errors_key@).insert(config.report_key@));
        assert(report@.dom() =~= Set::<Seq<char>>::empty().insert("valid"@).insert("issues"@));
        if config.errors_key@ != config.report_key@ {
            let items = patch@[config.errors_key@]->Array_0;
            assert(items@ == msgs);
            let a = json_of(patch@[config.errors_key@])->Array_0;
            let b = iv.map_values(|x: IssueView| Json::Text(x.message));
            assert(a.len() == b.len());
            assert forall|k: int| 0 <= k < a.len() implies a[k] == b[k] by {
                assert(a[k] == json_of(msgs[k]));
            }
            assert(a =~= b);
        }
        assert forall|k: int| 0 <= k < iv.len() implies (#[trigger] vals[k] matches Value::Object(o) && json_map(o)
            == issue_json(iv[k])) by {
            assert(iv[k] == issues@[k]@);
        }
    }
    NodeOutput::from_patch(patch)
}

/// A validator, as a validation node holds it.
pub type ValidatorEntry = Slot<ValidatorRef>;

/// A node that validates the state and writes a report of the issues.
pub struct ValidationNode {
    rules: RuleSetValidator,
    validators: Vec<ValidatorEntry>,
    config: ValidationConfig,
}

impl ValidationNode {
    /// The key the messages are written under.
    pub closed spec fn errors_key(self) -> Seq<char> {
        self.config.errors_key@
    }

    /// The key the report is written under.
    pub closed spec fn report_key(self) -> Seq<char> {
        self.config.report_key@
    }

    /// The node's own rules.
    pub closed spec fn rule_set(self) -> RuleSetValidator {
        self.rules
    }

    /// The number of validators added besides the rules.
    pub closed spec fn validator_count(self) -> nat {
        self.validators@.len()
    }

    /// What the `i`-th added validator may find in `state`.
    pub closed spec fn validator_finds(self, i: int, state: Map<Seq<char>, Value>, issues: Seq<IssueView>) -> bool {
        self.validators@[i].0.finds_issues(state, issues)
    }

    /// Whether `issues` are what this node may find in `state`: its rules'
    /// issues, then each added validator's, in order.
    pub open spec fn node_finds(self, state: Map<Seq<char>, Value>, issues: Seq<IssueView>) -> bool {
        exists|from_rules: Seq<IssueView>, extras: Seq<Seq<IssueView>>|
            #[trigger] rules_find(self.rule_set().rules(), state, from_rules) && extras.len() == self.validator_count()
                && (forall|i: int| 0 <= i < extras.len() ==> self.validator_finds(i, state, #[trigger] extras[i]))
                && issues == #[trigger] (from_rules + flatten_issues(extras))
    }

    /// A node without rules, writing under `validation_errors` and
    /// `validation_report`.
    pub fn new() -> (r: Self)
        ensures
            r.errors_key() == "validation_errors"@,
            r.report_key() == "validation_report"@,
            r.rule_set().rules() == Seq::<ValidationRule>::empty(),
            r.validator_count() == 0,
    {
        ValidationNode { rules: RuleSetValidator::new(), validators: Vec::new(), config: ValidationConfig::default() }
    }

    /// This node writing the messages under `key`.
    pub fn with_output_key(self, key: &str) -> (r: Self)
        ensures
            r.errors_key() == key@,
            r.report_key() == self.report_key(),
            r.rule_set() == self.rule_set(),
            r.validator_count() == self.validator_count(),
    {
        let mut r = self;
        r.config.errors_key = owned(key);
        r
    }

    /// This node writing the report under `key`.
    pub fn with_report_key(self, key: &str) -> (r: Self)
        ensures
            r.errors_key() == self.errors_key(),
            r.report_key() == key@,
            r.rule_set() == self.rule_set(),
            r.validator_count() == self.validator_count(),
    {
        let mut r = self;
        r.config.report_key = owned(key);
        r
    }

    /// The key the messages are written under.
    pub fn output_key(&self) -> (r: &str)
        ensures
            r@ == self.errors_key(),
    {
        self.config.errors_key.as_str()
    }

    pub fn add_rule(&mut self, rule: ValidationRule)
        ensures
            final(self).rule_set().rules() == old(self).rule_set().rules().push(rule),
            final(self).errors_key() == old(self).errors_key(),
            final(self).report_key() == old(self).report_key(),
            final(self).validator_count() == old(self).validator_count(),
    {
        self.rules.add_rule(rule);
    }

    pub fn add_validator(&mut self, validator: ValidatorRef)
        ensures
            final(self).rule_set() == old(self).rule_set(),
            final(self).errors_key() == old(self).errors_key(),
            final(self).report_key() == old(self).report_key(),
            final(self).validator_count() == old(self).validator_count() + 1,
            forall|i: int, state: Map<Seq<char>, Value>, issues: Seq<IssueView>|
                0 <= i < old(self).validator_count() ==> #[trigger] final(self).validator_finds(i, state, issues)
                    == old(self).validator_finds(i, state, issues),
            forall|state: Map<Seq<char>, Value>, issues: Seq<IssueView>|
                #[trigger] final(self).validator_finds(old(self).validator_count() as int, state, issues)
                    == validator.finds_issues(state, issues),
    {
        let ghost given = validator;
        let entry = Slot(validator);
        assert(entry.0 == given);
        self.store_validator(entry);
    }

    fn store_validator(&mut self, entry: ValidatorEntry)
        ensures
            final(self).rule_set() == old(self).rule_set(),
            final(self).errors_key() == old(self).errors_key(),
            final(self).report_key() == old(self).report_key(),
            final(self).validator_count() == old(self).validator_count() + 1,
            final(self).validators@ == old(self).validators@.push(entry),
    {
        self.validators.push(entry);
    }

    /// Validates `state`: the rules' issues, then each validator's, in
    /// order, reported under the node's keys.
    pub fn run(&self, state: &State) -> (r: NodeOutput)
        ensures
            r.commands@.len() == 0,
            exists|issues: Seq<IssueView>|
                #[trigger] self.node_finds(state@, issues) && reports(self.errors_key(), self.report_key(), issues, r.patch),
            exists|issues: Seq<IssueView>| #[trigger] reports(self.errors_key(), self.report_key(), issues, r.patch),
            self.rule_set().all_builtin() ==> exists|extra: Seq<IssueView>| #[trigger] reports(
                self.errors_key(),
                self.report_key(),
                rules_issues(self.rule_set().rules(), state@) + extra,
                r.patch,
            ) && (self.validator_count() == 0 ==> extra.len() == 0),
    {
        let mut issues = self.rules.validate(state);
        let ghost from_rules = issues_view(issues@);
        proof {
            assert(rules_find(self.rule_set().rules(), state@, from_rules));
        }
        let ghost mut extras: Seq<Seq<IssueView>> = Seq::empty();
        let mut i: usize = 0;
        while i < self.validators.len()
            invariant
                i <= self.validators@.len(),
                issues_view(issues@).len() >= from_rules.len(),
                issues_view(issues@).subrange(0, from_rules.len() as int) == from_rules,
                i == 0 ==> issues_view(issues@) == from_rules,
                extras.len() == i,
                forall|j: int| 0 <= j < i ==> self.validator_finds(j, state@, #[trigger] extras[j]),
                issues_view(issues@) == from_rules + flatten_issues(extras),
            decreases self.validators@.len() - i,
        {
            let ghost before = issues@;
            let mut more = self.validators[i].0.validate(state);
            let ghost added = more@;
            proof {
                assert(self.validator_finds(i as int, state@, issues_view(added)));
                let old_extras = extras;
                extras = old_extras.push(issues_view(added));
                assert(extras.drop_last() =~= old_extras);
                assert forall|j: int| 0 <= j < i + 1 implies self.validator_finds(j, state@, #[trigger] extras[j]) by {
                    if j < i {
                        assert(extras[j] == old_extras[j]);
                    }
                }
            }
            issues.append(&mut more);
            proof {
                assert(issues@ == before + added);
                assert(issues_view(issues@) =~= issues_view(before) + issues_view(added));
                assert(issues_view(issues@) =~= from_rules + flatten_issues(extras));
                assert(issues_view(issues@).subrange(0, from_rules.len() as int) =~= issues_view(before).subrange(
                    0,
                    from_rules.len() as int,
                ));
            }
            i = i + 1;
        }
        let r = report_output(&self.config, &issues);
        proof {
            let all = issues_view(issues@);
            let extra = all.subrange(from_rules.len() as int, all.len() as int);
            assert(all =~= from_rules + extra);
            assert(reports(self.errors_key(), self.report_key(), all, r.patch));
            assert(self.node_finds(state@, all));
            if self.rule_set().all_builtin() {
                assert(from_rules == rules_issues(self.rule_set().rules(), state@));
                assert(reports(
                    self.errors_key(),
                    self.report_key(),
                    rules_issues(self.rule_set().rules(), state@) + extra,
                    r.patch,
                ));
            }
        }
        r
    }

    /// This node as a graph node action.
    pub fn into_action(self) -> (r: RuntimeNodeAction)
        ensures
            forall|state: Map<Seq<char>, Value>, context: Map<Seq<char>, Value>, out: Result<NodeOutput, String>|
                #[trigger] r.outputs(state, context, out) == (out matches Ok(o) && self.validated(state, o)),
    {
        return Box::new(self);
    }
}

impl ValidationNode {
    /// What a run of this node on `state` gives: no commands, and a report
    /// under the node's keys of issues the node may find; when all its rules are
    /// built-in, those issues start with the rules' own, and are only those
    /// when no validator was added.
    pub open spec fn validated(self, state: Map<Seq<char>, Value>, r: NodeOutput) -> bool {
        &&& r.commands@.len() == 0
        &&& exists|issues: Seq<IssueView>|
            #[trigger] self.node_finds(state, issues) && reports(self.errors_key(), self.report_key(), issues, r.patch)
        &&& exists|issues: Seq<IssueView>| #[trigger] reports(self.errors_key(), self.report_key(), issues, r.patch)
        &&& self.rule_set().all_builtin() ==> exists|extra: Seq<IssueView>| #[trigger] reports(
            self.errors_key(),
            self.report_key(),
            rules_issues(self.rule_set().rules(), state) + extra,
            r.patch,
        ) && (self.validator_count() == 0 ==> extra.len() == 0)
    }
}

impl RuntimeNodeFn for ValidationNode {
    /// Always a report, as [`ValidationNode::validated`] says.
    open spec fn outputs(&self, state: Map<Seq<char>, Value>, context: Map<Seq<char>, Value>, r: Result<NodeOutput, String>) -> bool {
        r matches Ok(out) && self.validated(state, out)
    }

    fn run(&self, state: &State, runtime_context: &RuntimeContext) -> (r: Result<NodeOutput, String>) {
        let out = ValidationNode::run(self, state);
        proof {
            assert(self.validated(state@, out));
        }
        Ok(out)
    }
}

impl Default for RuleSetValidator {
    /// A validator without rules.
    fn default() -> (r: Self)
        ensures
            r.rules() == Seq::<ValidationRule>::empty(),
    {
        RuleSetValidator::new()
    }
}

impl Default for ValidationNode {
    /// The same node as `ValidationNode::new`.
    fn default() -> (r: Self)
        ensures
            r.errors_key() == "validation_errors"@,
            r.report_key() == "validation_report"@,
            r.rule_set().rules() == Seq::<ValidationRule>::empty(),
            r.validator_count() == 0,
    {
        ValidationNode::new()
    }
}

} // verus!
