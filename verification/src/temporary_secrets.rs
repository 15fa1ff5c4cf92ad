//! Secrets that live in memory for one session: named fields, the programs that may use them, and
//! the approvals that this takes. A value is handed to an approved program and to nobody else.
use vstd::prelude::*;

use crate::model::holds_text;
use crate::paths::{is_absolute, is_absolute_path};
use crate::secret::{secret_text, Secret};
use crate::text::{
    ascii_upper, byte_len, chars_of, copy_texts, is_blank, same_text, texts, to_ascii_upper, trim,
    trimmed, utf8_len,
};

verus! {

pub const MAX_FIELDS: usize = 64;

pub const MAX_VALUE_BYTES: usize = 32 * 1024;

pub const MAX_OPERATIONS: usize = 16;

pub const MAX_NAME_BYTES: usize = 256;

pub const MAX_ARGUMENTS: usize = 128;

pub const MAX_ARGUMENT_BYTES: usize = 8192;

pub const MAX_ARGUMENTS_BYTES: usize = 32 * 1024;

pub const MAX_EXECUTION_MS: u64 = 600_000;

pub const DEFAULT_EXECUTION_MS: u64 = 60_000;

/// An approval that nobody gives expires after this many milliseconds.
pub const APPROVAL_MS: u64 = 300_000;

/// How long a window that was just launched is waited for, in milliseconds.
pub const LAUNCH_MS: u64 = 20_000;

/// Requests that are handled before the window is drawn again.
pub const REQUESTS_PER_POLL: usize = 8;

/// The Unicode control characters.
pub open spec fn is_control_char(c: char) -> bool {
    c as u32 <= 0x1f || 0x7f <= c as u32 <= 0x9f
}

pub fn is_control(c: char) -> (r: bool)
    ensures
        r == is_control_char(c),
{
    let n: u32 = c as u32;
    n <= 0x1f || (0x7f <= n && n <= 0x9f)
}

/// The text holds a character of a class.
pub open spec fn has_char(text: Seq<char>, class: spec_fn(char) -> bool) -> bool {
    exists|i: int| 0 <= i < text.len() && class(#[trigger] text[i])
}

fn has_control(text: &str) -> (r: bool)
    ensures
        r == has_char(text@, |c: char| is_control_char(c)),
{
    let chars = chars_of(text);
    let ghost class = |c: char| is_control_char(c);
    let mut i: usize = 0;
    while i < chars.len()
        invariant
            i <= chars@.len(),
            chars@ == text@,
            class == (|c: char| is_control_char(c)),
            forall|j: int| 0 <= j < i ==> !is_control_char(#[trigger] chars@[j]),
        decreases chars@.len() - i,
    {
        if is_control(chars[i]) {
            assert(class(text@[i as int]));
            return true;
        }
        i = i + 1;
    }
    false
}

fn has_nul(text: &str) -> (r: bool)
    ensures
        r == has_char(text@, |c: char| c == '\0'),
{
    let chars = chars_of(text);
    let ghost class = |c: char| c == '\0';
    let mut i: usize = 0;
    while i < chars.len()
        invariant
            i <= chars@.len(),
            chars@ == text@,
            class == (|c: char| c == '\0'),
            forall|j: int| 0 <= j < i ==> (#[trigger] chars@[j]) != '\0',
        decreases chars@.len() - i,
    {
        if chars[i] == '\0' {
            assert(class(text@[i as int]));
            return true;
        }
        i = i + 1;
    }
    false
}

/// A field name: not blank, without white space around it, short, and without control characters.
pub open spec fn is_field_name(name: Seq<char>) -> bool {
    &&& trimmed(name).len() > 0
    &&& trimmed(name) == name
    &&& utf8_len(name) <= MAX_NAME_BYTES
    &&& !has_char(name, |c: char| is_control_char(c))
}

/// A list of names is in order: not too long, every name valid, and no name twice. Whether it may
/// be empty depends on the request.
pub open spec fn names_valid(names: Seq<Seq<char>>, allow_empty: bool) -> bool {
    &&& allow_empty || names.len() > 0
    &&& names.len() <= MAX_FIELDS
    &&& forall|i: int| 0 <= i < names.len() ==> is_field_name(#[trigger] names[i])
    &&& names.no_duplicates()
}

fn field_name_ok(name: &str) -> (r: bool)
    ensures
        r == is_field_name(name@),
{
    !is_blank(name) && same_text(name, trim(name)) && byte_len(name) <= MAX_NAME_BYTES
        && !has_control(name)
}

pub fn validate_names(names: &Vec<String>, allow_empty: bool) -> (r: Result<(), &'static str>)
    ensures
        r is Ok <==> names_valid(texts(names@), allow_empty),
        r matches Err(code) ==> code@ == "FIELD_NAMES_INVALID"@,
{
    if (!allow_empty && names.len() == 0) || names.len() > MAX_FIELDS {
        return Err("FIELD_NAMES_INVALID");
    }
    let ghost all = texts(names@);
    let mut i: usize = 0;
    while i < names.len()
        invariant
            i <= names@.len(),
            all == texts(names@),
            forall|j: int| 0 <= j < i ==> is_field_name(#[trigger] all[j]),
            forall|j: int, k: int| 0 <= j < k < i ==> all[j] != all[k],
        decreases names@.len() - i,
    {
        if !field_name_ok(names[i].as_str()) {
            assert(!is_field_name(all[i as int]));
            return Err("FIELD_NAMES_INVALID");
        }
        let mut j: usize = 0;
        while j < i
            invariant
                j <= i < names@.len(),
                all == texts(names@),
                forall|k: int| 0 <= k < j ==> all[k] != all[i as int],
            decreases i - j,
        {
            if same_text(names[j].as_str(), names[i].as_str()) {
                assert(all[j as int] == all[i as int]);
                return Err("FIELD_NAMES_INVALID");
            }
            assert(all[j as int] == names@[j as int]@);
            j = j + 1;
        }
        i = i + 1;
    }
    Ok(())
}

/// Which program is to run, where, with which arguments, and which environment variable takes the
/// value of which field.
#[derive(Debug, Clone, PartialEq, Eq)]
pub struct Execution {
    pub program: String,
    pub args: Vec<String>,
    pub cwd: String,
    pub env: Vec<EnvBinding>,
    pub timeout_ms: u64,
}

/// An environment variable and the field that it takes its value from.
#[derive(Debug, Clone, PartialEq, Eq)]
pub struct EnvBinding {
    pub variable: String,
    pub field: String,
}

#[verifier::ext_equal]
pub struct ExecutionModel {
    pub program: Seq<char>,
    pub args: Seq<Seq<char>>,
    pub cwd: Seq<char>,
    pub env: Seq<(Seq<char>, Seq<char>)>,
    pub timeout_ms: u64,
}

pub open spec fn bindings(env: Seq<EnvBinding>) -> Seq<(Seq<char>, Seq<char>)> {
    Seq::new(env.len(), |i: int| (env[i].variable@, env[i].field@))
}

impl View for Execution {
    type V = ExecutionModel;

    open spec fn view(&self) -> ExecutionModel {
        ExecutionModel {
            program: self.program@,
            args: texts(self.args@),
            cwd: self.cwd@,
            env: bindings(self.env@),
            timeout_ms: self.timeout_ms,
        }
    }
}

/// Bytes of all arguments together.
pub open spec fn total_bytes(args: Seq<Seq<char>>) -> nat
    decreases args.len(),
{
    if args.len() == 0 {
        0
    } else {
        total_bytes(args.drop_last()) + utf8_len(args.last())
    }
}

/// Arguments are few, short, without a zero character, and not too long together.
pub open spec fn arguments_ok(args: Seq<Seq<char>>) -> bool {
    &&& args.len() <= MAX_ARGUMENTS
    &&& forall|i: int|
        0 <= i < args.len() ==> utf8_len(#[trigger] args[i]) <= MAX_ARGUMENT_BYTES && !has_char(
            args[i],
            |c: char| c == '\0',
        )
    &&& total_bytes(args) <= MAX_ARGUMENTS_BYTES
}

/// Letters, digits and underscores, and no digit at the front.
pub open spec fn is_variable_name(name: Seq<char>) -> bool {
    &&& name.len() > 0
    &&& utf8_len(name) <= MAX_NAME_BYTES
    &&& forall|i: int|
        0 <= i < name.len() ==> {
            let c = #[trigger] name[i];
            c == '_' || ('a' <= c <= 'z') || ('A' <= c <= 'Z') || (i > 0 && '0' <= c <= '9')
        }
}

/// Every variable is named properly, and no two differ only in case.
pub open spec fn variables_ok(env: Seq<(Seq<char>, Seq<char>)>) -> bool {
    &&& forall|i: int| 0 <= i < env.len() ==> is_variable_name((#[trigger] env[i]).0)
    &&& forall|i: int, j: int|
        0 <= i < j < env.len() ==> ascii_upper((#[trigger] env[i]).0) != ascii_upper(
            (#[trigger] env[j]).0,
        )
}

impl ExecutionModel {
    /// The program, its arguments, its time and the number of variables are in range.
    pub open spec fn shape_ok(self) -> bool {
        &&& is_absolute_path(self.program)
        &&& is_absolute_path(self.cwd)
        &&& arguments_ok(self.args)
        &&& 1 <= self.timeout_ms <= MAX_EXECUTION_MS
        &&& 1 <= self.env.len() <= MAX_FIELDS
    }

    /// Every field that is referred to could be one.
    pub open spec fn fields_ok(self) -> bool {
        forall|i: int| 0 <= i < self.env.len() ==> is_field_name((#[trigger] self.env[i]).1)
    }

    pub open spec fn valid(self) -> bool {
        self.shape_ok() && variables_ok(self.env) && self.fields_ok()
    }

    /// The code of what is wrong.
    pub open spec fn fault(self) -> Seq<char> {
        if !self.shape_ok() {
            "EXECUTION_INVALID"@
        } else if !variables_ok(self.env) {
            "ENVIRONMENT_INVALID"@
        } else {
            "FIELD_NAMES_INVALID"@
        }
    }
}

proof fn lemma_total_bytes(args: Seq<Seq<char>>, n: int)
    requires
        0 <= n <= args.len(),
    ensures
        total_bytes(args.take(n)) <= total_bytes(args),
    decreases args.len() - n,
{
    if n < args.len() {
        lemma_total_bytes(args, n + 1);
        assert(args.take(n + 1).drop_last() =~= args.take(n));
    } else {
        assert(args.take(n) =~= args);
    }
}

fn args_ok(args: &Vec<String>) -> (r: bool)
    ensures
        r == arguments_ok(texts(args@)),
{
    let ghost all = texts(args@);
    if args.len() > MAX_ARGUMENTS {
        return false;
    }
    let mut total: usize = 0;
    let mut i: usize = 0;
    while i < args.len()
        invariant
            i <= args@.len() <= MAX_ARGUMENTS,
            all == texts(args@),
            total == total_bytes(all.take(i as int)),
            total <= MAX_ARGUMENTS_BYTES,
            forall|j: int|
                0 <= j < i ==> utf8_len(#[trigger] all[j]) <= MAX_ARGUMENT_BYTES && !has_char(
                    all[j],
                    |c: char| c == '\0',
                ),
        decreases args@.len() - i,
    {
        let length: usize = byte_len(args[i].as_str());
        assert(length == utf8_len(all[i as int]));
        if length > MAX_ARGUMENT_BYTES || has_nul(args[i].as_str()) {
            assert(!(utf8_len(all[i as int]) <= MAX_ARGUMENT_BYTES && !has_char(
                all[i as int],
                |c: char| c == '\0',
            )));
            return false;
        }
        assert(all.take(i + 1).drop_last() =~= all.take(i as int));
        total = total + length;
        if total > MAX_ARGUMENTS_BYTES {
            proof {
                lemma_total_bytes(all, i + 1);
            }
            return false;
        }
        i = i + 1;
    }
    assert(all.take(args@.len() as int) =~= all);
    true
}

fn variable_ok(name: &str) -> (r: bool)
    ensures
        r == is_variable_name(name@),
{
    let chars = chars_of(name);
    if chars.len() == 0 || byte_len(name) > MAX_NAME_BYTES {
        return false;
    }
    let mut i: usize = 0;
    while i < chars.len()
        invariant
            i <= chars@.len(),
            chars@ == name@,
            forall|j: int|
                0 <= j < i ==> {
                    let c = #[trigger] chars@[j];
                    c == '_' || ('a' <= c <= 'z') || ('A' <= c <= 'Z') || (j > 0 && '0' <= c <= '9')
                },
        decreases chars@.len() - i,
    {
        let c: char = chars[i];
        if !(c == '_' || ('a' <= c && c <= 'z') || ('A' <= c && c <= 'Z') || (i > 0 && '0' <= c && c
            <= '9')) {
            assert(name@[i as int] == c);
            return false;
        }
        i = i + 1;
    }
    true
}

impl Execution {
    pub fn validate(&self) -> (r: Result<(), &'static str>)
        ensures
            r is Ok <==> self@.valid(),
            r matches Err(code) ==> code@ == self@.fault(),
    {
        let ghost env = self@.env;
        if !is_absolute(self.program.as_str()) || !is_absolute(self.cwd.as_str()) || !args_ok(
            &self.args,
        ) || self.timeout_ms < 1 || self.timeout_ms > MAX_EXECUTION_MS || self.env.len() == 0
            || self.env.len() > MAX_FIELDS {
            return Err("EXECUTION_INVALID");
        }
        let mut i: usize = 0;
        while i < self.env.len()
            invariant
                i <= self.env@.len(),
                env == self@.env,
                self@.shape_ok(),
                forall|j: int| 0 <= j < i ==> is_variable_name((#[trigger] env[j]).0),
                forall|j: int, k: int|
                    0 <= j < k < i ==> ascii_upper((#[trigger] env[j]).0) != ascii_upper(
                        (#[trigger] env[k]).0,
                    ),
            decreases self.env@.len() - i,
        {
            if !variable_ok(self.env[i].variable.as_str()) {
                assert(!is_variable_name(env[i as int].0));
                return Err("ENVIRONMENT_INVALID");
            }
            let here = to_ascii_upper(self.env[i].variable.as_str());
            let mut j: usize = 0;
            while j < i
                invariant
                    j <= i < self.env@.len(),
                    env == self@.env,
                    self@.shape_ok(),
                    here@ == ascii_upper(env[i as int].0),
                    forall|k: int| 0 <= k < j ==> ascii_upper((#[trigger] env[k]).0) != here@,
                decreases i - j,
            {
                let other = to_ascii_upper(self.env[j].variable.as_str());
                if same_text(other.as_str(), here.as_str()) {
                    assert(ascii_upper(env[j as int].0) == ascii_upper(env[i as int].0));
                    return Err("ENVIRONMENT_INVALID");
                }
                j = j + 1;
            }
            i = i + 1;
        }
        let mut i: usize = 0;
        while i < self.env.len()
            invariant
                i <= self.env@.len(),
                env == self@.env,
                self@.shape_ok(),
                variables_ok(env),
                forall|j: int| 0 <= j < i ==> is_field_name((#[trigger] env[j]).1),
            decreases self.env@.len() - i,
        {
            if !field_name_ok(self.env[i].field.as_str()) {
                assert(!is_field_name(env[i as int].1));
                return Err("FIELD_NAMES_INVALID");
            }
            i = i + 1;
        }
        Ok(())
    }

    /// A copy of the execution.
    pub fn copy(&self) -> (r: Self)
        ensures
            r@ == self@,
    {
        let mut env: Vec<EnvBinding> = Vec::new();
        let mut i: usize = 0;
        while i < self.env.len()
            invariant
                i <= self.env@.len(),
                env@.len() == i,
                forall|j: int|
                    0 <= j < i ==> (#[trigger] env@[j]).variable@ == self.env@[j].variable@
                        && env@[j].field@ == self.env@[j].field@,
            decreases self.env@.len() - i,
        {
            env.push(
                EnvBinding {
                    variable: self.env[i].variable.clone(),
                    field: self.env[i].field.clone(),
                },
            );
            i = i + 1;
        }
        let r = Execution {
            program: self.program.clone(),
            args: copy_texts(&self.args),
            cwd: self.cwd.clone(),
            env,
            timeout_ms: self.timeout_ms,
        };
        assert(r@.env =~= self@.env);
        r
    }
}

/// What can be asked of a session. No request carries a value or asks for one.
#[derive(Debug, Clone, PartialEq, Eq)]
pub enum Request {
    Declare { fields: Vec<String> },
    Status,
    Show { temporary: bool },
    Clear { fields: Vec<String> },
    Execute(Execution),
}

/// A named value, and what is being typed for it.
pub struct Field {
    pub name: String,
    pub draft: Secret,
    pub value: Option<Secret>,
}

pub struct FieldModel {
    pub name: Seq<char>,
    pub draft: Seq<char>,
    pub value: Option<Seq<char>>,
}

impl View for Field {
    type V = FieldModel;

    open spec fn view(&self) -> FieldModel {
        FieldModel {
            name: self.name@,
            draft: self.draft@,
            value: secret_text(self.value),
        }
    }
}

/// A value: something, not too long, and without a zero character.
pub open spec fn is_secret_value(text: Seq<char>) -> bool {
    text.len() > 0 && utf8_len(text) <= 32_768 && !has_char(text, |c: char| c == '\0')
}

impl Field {
    /// Wipes what was typed and what was saved.
    pub fn clear(&mut self)
        ensures
            final(self)@ == (FieldModel { name: old(self)@.name, draft: Seq::empty(), value: None }),
    {
        self.draft.clear();
        self.value = None;
    }

    /// Makes what was typed the value. An unusable text leaves the saved value as it is.
    pub fn save(&mut self) -> (r: Result<(), &'static str>)
        ensures
            r is Ok <==> is_secret_value(old(self)@.draft),
            r is Ok ==> final(self)@ == (FieldModel {
                name: old(self)@.name,
                draft: Seq::empty(),
                value: Some(old(self)@.draft),
            }),
            r matches Err(code) ==> code@ == "SECRET_VALUE_INVALID"@ && final(self)@ == old(self)@,
    {
        if self.draft.is_empty() || byte_len(self.draft.as_str()) > MAX_VALUE_BYTES
            || has_nul(self.draft.as_str()) {
            return Err("SECRET_VALUE_INVALID");
        }
        self.value = Some(self.draft.take());
        Ok(())
    }
}

/// Whether a field has a value.
#[derive(Debug, Clone, PartialEq, Eq)]
pub struct FieldStatus {
    pub name: String,
    pub ready: bool,
}

pub struct FieldStatusModel {
    pub name: Seq<char>,
    pub ready: bool,
}

impl View for FieldStatus {
    type V = FieldStatusModel;

    open spec fn view(&self) -> FieldStatusModel {
        FieldStatusModel { name: self.name@, ready: self.ready }
    }
}

pub open spec fn status_models(list: Seq<FieldStatus>) -> Seq<FieldStatusModel> {
    Seq::new(list.len(), |i: int| list[i]@)
}

/// The fields of a session.
pub struct Vault {
    pub fields: Vec<Field>,
}

/// What is told of a list of fields: their names, and whether they have a value.
pub open spec fn readiness(fields: Seq<FieldModel>) -> Seq<FieldStatusModel> {
    Seq::new(
        fields.len(),
        |i: int| FieldStatusModel { name: fields[i].name, ready: fields[i].value is Some },
    )
}

/// A field of this name is in the list.
pub open spec fn has_field(fields: Seq<FieldModel>, name: Seq<char>) -> bool {
    exists|i: int| 0 <= i < fields.len() && (#[trigger] fields[i]).name == name
}

/// The fields with empty ones added for the names that are new.
pub open spec fn with_names(fields: Seq<FieldModel>, names: Seq<Seq<char>>) -> Seq<FieldModel>
    decreases names.len(),
{
    if names.len() == 0 {
        fields
    } else {
        let before = with_names(fields, names.drop_last());
        if has_field(before, names.last()) {
            before
        } else {
            before.push(FieldModel { name: names.last(), draft: Seq::empty(), value: None })
        }
    }
}

/// The fields with the named ones emptied; all of them when no name is given.
pub open spec fn emptied(fields: Seq<FieldModel>, names: Seq<Seq<char>>) -> Seq<FieldModel> {
    Seq::new(
        fields.len(),
        |i: int|
            if names.len() == 0 || names.contains(fields[i].name) {
                FieldModel { name: fields[i].name, draft: Seq::empty(), value: None }
            } else {
                fields[i]
            },
    )
}

/// The value of a field, if the field is there and has one.
pub open spec fn value_of(fields: Seq<FieldModel>, name: Seq<char>) -> Option<Seq<char>>
    decreases fields.len(),
{
    if fields.len() == 0 {
        None
    } else if fields[0].name == name {
        fields[0].value
    } else {
        value_of(fields.skip(1), name)
    }
}

/// Every field that the execution refers to has a value.
pub open spec fn all_saved(fields: Seq<FieldModel>, execution: ExecutionModel) -> bool {
    forall|i: int|
        0 <= i < execution.env.len() ==> value_of(fields, (#[trigger] execution.env[i]).1) is Some
}

/// Each variable with the value of its field.
pub open spec fn environment_of(fields: Seq<FieldModel>, execution: ExecutionModel) -> Seq<
    (Seq<char>, Seq<char>),
> {
    Seq::new(
        execution.env.len(),
        |i: int| (execution.env[i].0, value_of(fields, execution.env[i].1)->0),
    )
}

/// A variable and its value.
pub struct EnvValue {
    pub variable: String,
    pub value: Secret,
}

pub open spec fn env_values(list: Seq<EnvValue>) -> Seq<(Seq<char>, Seq<char>)> {
    Seq::new(list.len(), |i: int| (list[i].variable@, list[i].value@))
}

/// Adding names keeps every field that was there, with what it holds.
pub proof fn lemma_with_names(fields: Seq<FieldModel>, names: Seq<Seq<char>>)
    ensures
        with_names(fields, names).len() >= fields.len(),
        with_names(fields, names).len() <= fields.len() + names.len(),
        with_names(fields, names).take(fields.len() as int) == fields,
        forall|i: int|
            0 <= i < names.len() ==> has_field(with_names(fields, names), #[trigger] names[i]),
        forall|i: int|
            fields.len() <= i < with_names(fields, names).len() ==> names.contains(
                (#[trigger] with_names(fields, names)[i]).name,
            ) && with_names(fields, names)[i].value is None,
    decreases names.len(),
{
    if names.len() == 0 {
        assert(fields.take(fields.len() as int) =~= fields);
    } else {
        let fewer = names.drop_last();
        let before = with_names(fields, fewer);
        let after = with_names(fields, names);
        lemma_with_names(fields, fewer);
        assert(after.take(fields.len() as int) =~= fields) by {
            assert(forall|i: int|
                0 <= i < fields.len() ==> before.take(fields.len() as int)[i] == before[i]);
        }
        assert forall|i: int| 0 <= i < names.len() implies has_field(after, #[trigger] names[i]) by {
            if i < fewer.len() {
                assert(fewer[i] == names[i]);
                let k = choose|k: int| 0 <= k < before.len() && (#[trigger] before[k]).name
                    == fewer[i];
                assert(after[k].name == names[i]);
            } else if !has_field(before, names.last()) {
                assert(after[before.len() as int].name == names[i]);
            }
        }
        assert forall|i: int| fields.len() <= i < after.len() implies names.contains(
            (#[trigger] after[i]).name,
        ) && after[i].value is None by {
            if i < before.len() {
                assert(after[i] == before[i]);
                let k = choose|k: int| 0 <= k < fewer.len() && fewer[k] == before[i].name;
                assert(names[k] == after[i].name);
            } else {
                assert(names[names.len() - 1] == after[i].name);
            }
        }
    }
}

impl Vault {
    pub open spec fn model(self) -> Seq<FieldModel> {
        Seq::new(self.fields@.len(), |i: int| self.fields@[i]@)
    }

    /// Names are valid and distinct, and there are not too many.
    pub open spec fn inv(self) -> bool {
        fields_ok(self.model())
    }

    /// A vault without fields.
    pub fn new() -> (r: Self)
        ensures
            r.model() == Seq::<FieldModel>::empty(),
            r.inv(),
    {
        let r = Vault { fields: Vec::new() };
        assert(r.model() =~= Seq::empty());
        r
    }

    fn find(&self, name: &str) -> (r: Option<usize>)
        ensures
            match r {
                Some(at) => at < self.fields@.len() && self.model()[at as int].name == name@
                    && forall|i: int| 0 <= i < at ==> (#[trigger] self.model()[i]).name != name@,
                None => !has_field(self.model(), name@),
            },
    {
        let mut i: usize = 0;
        while i < self.fields.len()
            invariant
                i <= self.fields@.len(),
                forall|j: int| 0 <= j < i ==> (#[trigger] self.model()[j]).name != name@,
            decreases self.fields@.len() - i,
        {
            if same_text(self.fields[i].name.as_str(), name) {
                return Some(i);
            }
            i = i + 1;
        }
        None
    }

    /// Adds the fields that are new. Either all of them are added, or nothing changes.
    pub fn request(&mut self, names: &Vec<String>) -> (r: Result<(), &'static str>)
        requires
            old(self).inv(),
        ensures
            final(self).inv(),
            ({
                let wanted = with_names(old(self).model(), texts(names@));
                if !names_valid(texts(names@), false) {
                    (r matches Err(code) && code@ == "FIELD_NAMES_INVALID"@) && final(self).model()
                        == old(self).model()
                } else if wanted.len() > MAX_FIELDS {
                    (r matches Err(code) && code@ == "FIELD_LIMIT"@) && final(self).model()
                        == old(self).model()
                } else {
                    r is Ok && final(self).model() == wanted
                }
            }),
    {
        if let Err(code) = validate_names(names, false) {
            return Err(code);
        }
        let ghost all = texts(names@);
        let ghost start = self.model();
        let mut added: usize = 0;
        let mut i: usize = 0;
        assert(with_names(start, all.take(0)) == start);
        while i < names.len()
            invariant
                i <= names@.len() <= MAX_FIELDS,
                *self == *old(self),
                start == self.model(),
                all == texts(names@),
                all.no_duplicates(),
                added <= i,
                with_names(start, all.take(i as int)).len() == start.len() + added,
            decreases names@.len() - i,
        {
            proof {
                lemma_step(start, all, i as int);
            }
            if self.find(names[i].as_str()).is_none() {
                added = added + 1;
            }
            i = i + 1;
        }
        assert(all.take(names@.len() as int) =~= all);
        if self.fields.len() + added > MAX_FIELDS {
            return Err("FIELD_LIMIT");
        }
        let mut i: usize = 0;
        while i < names.len()
            invariant
                i <= names@.len(),
                all == texts(names@),
                self.model() == with_names(start, all.take(i as int)),
            decreases names@.len() - i,
        {
            assert(all.take(i + 1).drop_last() =~= all.take(i as int));
            assert(all.take(i + 1).last() == all[i as int]);
            if self.find(names[i].as_str()).is_none() {
                let ghost before = self.model();
                self.fields.push(
                    Field { name: names[i].clone(), draft: Secret::default(), value: None },
                );
                assert(self.model() =~= before.push(
                    FieldModel { name: all[i as int], draft: Seq::empty(), value: None },
                ));
            }
            i = i + 1;
        }
        assert(all.take(names@.len() as int) =~= all);
        proof {
            lemma_with_names_ok(start, all);
        }
        Ok(())
    }

    /// Empties the named fields, or all of them when no name is given.
    pub fn clear(&mut self, names: &Vec<String>) -> (r: Result<(), &'static str>)
        requires
            old(self).inv(),
        ensures
            final(self).inv(),
            if !names_valid(texts(names@), true) {
                (r matches Err(code) && code@ == "FIELD_NAMES_INVALID"@) && final(self).model()
                    == old(self).model()
            } else if exists|i: int|
                0 <= i < names@.len() && !has_field(
                    old(self).model(),
                    #[trigger] texts(names@)[i],
                ) {
                (r matches Err(code) && code@ == "FIELD_NOT_FOUND"@) && final(self).model() == old(
                    self,
                ).model()
            } else {
                r is Ok && final(self).model() == emptied(old(self).model(), texts(names@))
            },
    {
        if let Err(code) = validate_names(names, true) {
            return Err(code);
        }
        let ghost all = texts(names@);
        let ghost start = self.model();
        let mut i: usize = 0;
        while i < names.len()
            invariant
                i <= names@.len(),
                *self == *old(self),
                old(self).inv(),
                start == self.model(),
                all == texts(names@),
                names_valid(all, true),
                forall|j: int| 0 <= j < i ==> has_field(start, #[trigger] all[j]),
            decreases names@.len() - i,
        {
            if self.find(names[i].as_str()).is_none() {
                assert(!has_field(start, texts(names@)[i as int]));
                return Err("FIELD_NOT_FOUND");
            }
            i = i + 1;
        }
        let every = names.len() == 0;
        let mut i: usize = 0;
        while i < self.fields.len()
            invariant
                i <= self.fields@.len(),
                self.fields@.len() == start.len(),
                all == texts(names@),
                every == (all.len() == 0),
                forall|j: int| 0 <= j < i ==> (#[trigger] self.model()[j]) == emptied(start, all)[j],
                forall|j: int| i <= j < start.len() ==> (#[trigger] self.model()[j]) == start[j],
            decreases self.fields@.len() - i,
        {
            let ghost before = self.model();
            let listed = holds_text(names, self.fields[i].name.as_str());
            proof {
                assert(self.model()[i as int] == start[i as int]);
                if listed {
                    let k = choose|k: int|
                        0 <= k < names@.len() && #[trigger] names@[k]@ == start[i as int].name;
                    assert(all[k] == start[i as int].name);
                } else if all.contains(start[i as int].name) {
                    let k = choose|k: int| 0 <= k < all.len() && all[k] == start[i as int].name;
                    assert(names@[k]@ == start[i as int].name);
                }
            }
            if every || listed {
                self.fields[i].clear();
                assert(self.model()[i as int] == emptied(start, all)[i as int]);
            }
            assert(forall|j: int|
                0 <= j < start.len() && j != i ==> (#[trigger] self.model()[j]) == before[j]);
            i = i + 1;
        }
        assert(self.model() =~= emptied(start, all));
        Ok(())
    }

    /// What may be told of the fields.
    pub fn status(&self) -> (r: Vec<FieldStatus>)
        ensures
            status_models(r@) == readiness(self.model()),
    {
        let mut out: Vec<FieldStatus> = Vec::new();
        let mut i: usize = 0;
        while i < self.fields.len()
            invariant
                i <= self.fields@.len(),
                out@.len() == i,
                forall|j: int|
                    0 <= j < i ==> (#[trigger] out@[j])@ == readiness(self.model())[j],
            decreases self.fields@.len() - i,
        {
            out.push(
                FieldStatus {
                    name: self.fields[i].name.clone(),
                    ready: self.fields[i].value.is_some(),
                },
            );
            i = i + 1;
        }
        assert(status_models(out@) =~= readiness(self.model()));
        out
    }

    fn value<'a>(&'a self, name: &str) -> (r: Option<&'a Secret>)
        ensures
            match r {
                Some(secret) => value_of(self.model(), name@) == Some(secret@),
                None => value_of(self.model(), name@) is None,
            },
    {
        let mut i: usize = 0;
        let ghost all = self.model();
        assert(all.skip(0) =~= all);
        while i < self.fields.len()
            invariant
                i <= self.fields@.len(),
                all == self.model(),
                value_of(all.skip(i as int), name@) == value_of(all, name@),
            decreases self.fields@.len() - i,
        {
            assert(all.skip(i as int)[0] == all[i as int]);
            assert(all.skip(i as int).skip(1) =~= all.skip(i + 1));
            if same_text(self.fields[i].name.as_str(), name) {
                return self.fields[i].value.as_ref();
            }
            i = i + 1;
        }
        None
    }

    /// Whether everything that an execution needs is there. No value is copied.
    pub fn check(&self, execution: &Execution) -> (r: Result<(), &'static str>)
        ensures
            if !execution@.valid() {
                r matches Err(code) && code@ == execution@.fault()
            } else if !all_saved(self.model(), execution@) {
                r matches Err(code) && code@ == "SECRET_MISSING"@
            } else {
                r is Ok
            },
    {
        if let Err(code) = execution.validate() {
            return Err(code);
        }
        let ghost env = execution@.env;
        let mut i: usize = 0;
        while i < execution.env.len()
            invariant
                i <= execution.env@.len(),
                env == execution@.env,
                execution@.valid(),
                forall|j: int|
                    0 <= j < i ==> value_of(self.model(), (#[trigger] env[j]).1) is Some,
            decreases execution.env@.len() - i,
        {
            if self.value(execution.env[i].field.as_str()).is_none() {
                assert(value_of(self.model(), env[i as int].1) is None);
                return Err("SECRET_MISSING");
            }
            i = i + 1;
        }
        Ok(())
    }

    /// The environment of an execution, if everything that it needs is there.
    pub fn environment(&self, execution: &Execution) -> (r: Result<Vec<EnvValue>, &'static str>)
        ensures
            if !execution@.valid() {
                r matches Err(code) && code@ == execution@.fault()
            } else if !all_saved(self.model(), execution@) {
                r matches Err(code) && code@ == "SECRET_MISSING"@
            } else {
                r matches Ok(values) && env_values(values@) == environment_of(
                    self.model(),
                    execution@,
                )
            },
    {
        if let Err(code) = self.check(execution) {
            return Err(code);
        }
        let mut values: Vec<EnvValue> = Vec::new();
        let ghost env = execution@.env;
        let mut i: usize = 0;
        while i < execution.env.len()
            invariant
                i <= execution.env@.len(),
                env == execution@.env,
                execution@.valid(),
                all_saved(self.model(), execution@),
                values@.len() == i,
                forall|j: int|
                    0 <= j < i ==> value_of(self.model(), (#[trigger] env[j]).1) is Some
                        && values@[j].variable@ == env[j].0 && Some(values@[j].value@) == value_of(
                        self.model(),
                        env[j].1,
                    ),
            decreases execution.env@.len() - i,
        {
            let value = match self.value(execution.env[i].field.as_str()) {
                Some(value) => value.clone(),
                None => {
                    assert(value_of(self.model(), env[i as int].1) is None);
                    return Err("SECRET_MISSING");
                },
            };
            let ghost before = values@;
            values.push(EnvValue { variable: execution.env[i].variable.clone(), value });
            assert(forall|j: int| 0 <= j < i ==> values@[j] == before[j]);
            i = i + 1;
        }
        assert(env_values(values@) =~= environment_of(self.model(), execution@));
        Ok(values)
    }
}

/// Names are valid and distinct, and there are not too many.
pub open spec fn fields_ok(fields: Seq<FieldModel>) -> bool {
    &&& fields.len() <= MAX_FIELDS
    &&& forall|i: int| 0 <= i < fields.len() ==> is_field_name((#[trigger] fields[i]).name)
    &&& forall|i: int, j: int|
        0 <= i < j < fields.len() ==> (#[trigger] fields[i]).name != (#[trigger] fields[j]).name
}

proof fn lemma_with_names_ok(fields: Seq<FieldModel>, names: Seq<Seq<char>>)
    requires
        fields_ok(fields),
        forall|i: int| 0 <= i < names.len() ==> is_field_name(#[trigger] names[i]),
        with_names(fields, names).len() <= MAX_FIELDS,
    ensures
        fields_ok(with_names(fields, names)),
    decreases names.len(),
{
    if names.len() > 0 {
        let fewer = names.drop_last();
        let before = with_names(fields, fewer);
        let after = with_names(fields, names);
        assert(forall|i: int| 0 <= i < fewer.len() ==> fewer[i] == names[i]);
        lemma_with_names_ok(fields, fewer);
        assert(is_field_name(names[names.len() - 1]));
        if !has_field(before, names.last()) {
            assert forall|i: int, j: int| 0 <= i < j < after.len() implies (
            #[trigger] after[i]).name != (#[trigger] after[j]).name by {
                assert(after[i] == before[i]);
                if j < before.len() {
                    assert(after[j] == before[j]);
                }
            }
            assert forall|i: int| 0 <= i < after.len() implies is_field_name(
                (#[trigger] after[i]).name,
            ) by {
                if i < before.len() {
                    assert(after[i] == before[i]);
                }
            }
        }
    }
}

/// With distinct names, a name adds a field exactly when it was not there at the start.
proof fn lemma_step(fields: Seq<FieldModel>, names: Seq<Seq<char>>, i: int)
    requires
        0 <= i < names.len(),
        names.no_duplicates(),
    ensures
        with_names(fields, names.take(i + 1)).len() == with_names(fields, names.take(i)).len() + (
        if has_field(fields, names[i]) {
            0int
        } else {
            1int
        }),
{
    let fewer = names.take(i);
    let before = with_names(fields, fewer);
    assert(names.take(i + 1).drop_last() =~= fewer);
    assert(names.take(i + 1).last() == names[i]);
    lemma_with_names(fields, fewer);
    if has_field(fields, names[i]) {
        let k = choose|k: int| 0 <= k < fields.len() && (#[trigger] fields[k]).name == names[i];
        assert(before.take(fields.len() as int)[k] == before[k]);
        assert(before[k].name == names[i]);
    } else if has_field(before, names[i]) {
        let k = choose|k: int| 0 <= k < before.len() && (#[trigger] before[k]).name == names[i];
        if k < fields.len() {
            assert(before.take(fields.len() as int)[k] == before[k]);
            assert(fields[k].name == names[i]);
        } else {
            assert(fewer.contains(before[k].name));
            let m = choose|m: int| 0 <= m < fewer.len() && fewer[m] == names[i];
            assert(names[m] == names[i]);
        }
    }
}

/// Declaring names again keeps what was saved under them.
pub proof fn declaring_keeps_saved_values(fields: Seq<FieldModel>, names: Seq<Seq<char>>, i: int)
    requires
        0 <= i < fields.len(),
    ensures
        with_names(fields, names)[i] == fields[i],
{
    lemma_with_names(fields, names);
    assert(with_names(fields, names).take(fields.len() as int)[i] == with_names(fields, names)[i]);
}

/// After clearing everything no field has a value, and nothing is left of what was typed.
pub proof fn clearing_everything_leaves_nothing(fields: Seq<FieldModel>, i: int)
    requires
        0 <= i < fields.len(),
    ensures
        emptied(fields, Seq::empty())[i].value is None,
        emptied(fields, Seq::empty())[i].draft.len() == 0,
        emptied(fields, Seq::empty())[i].name == fields[i].name,
{
}

proof fn lemma_value_of(fields: Seq<FieldModel>, name: Seq<char>, k: int)
    requires
        0 <= k < fields.len(),
        fields[k].name == name,
        forall|i: int| 0 <= i < k ==> (#[trigger] fields[i]).name != name,
    ensures
        value_of(fields, name) == fields[k].value,
    decreases fields.len(),
{
    if k > 0 {
        let rest = fields.skip(1);
        assert(fields[0].name != name);
        assert forall|i: int| 0 <= i < k - 1 implies (#[trigger] rest[i]).name != name by {
            assert(rest[i] == fields[i + 1]);
        }
        lemma_value_of(rest, name, k - 1);
    }
}

proof fn lemma_no_value(fields: Seq<FieldModel>, name: Seq<char>)
    requires
        forall|i: int| 0 <= i < fields.len() ==> (#[trigger] fields[i]).name != name,
    ensures
        value_of(fields, name) is None,
    decreases fields.len(),
{
    if fields.len() > 0 {
        let rest = fields.skip(1);
        assert(fields[0].name != name);
        assert forall|i: int| 0 <= i < rest.len() implies (#[trigger] rest[i]).name != name by {
            assert(rest[i] == fields[i + 1]);
        }
        lemma_no_value(rest, name);
    }
}

/// A program gets, under each variable, the value that was saved in the field of that name, as it
/// was saved.
pub proof fn variables_get_the_saved_values(
    fields: Seq<FieldModel>,
    execution: ExecutionModel,
    i: int,
    k: int,
)
    requires
        fields_ok(fields),
        0 <= i < execution.env.len(),
        0 <= k < fields.len(),
        fields[k].name == execution.env[i].1,
        fields[k].value is Some,
    ensures
        environment_of(fields, execution).len() == execution.env.len(),
        environment_of(fields, execution)[i].0 == execution.env[i].0,
        environment_of(fields, execution)[i].1 == fields[k].value->0,
{
    assert forall|j: int| 0 <= j < k implies (#[trigger] fields[j]).name
        != execution.env[i].1 by {}
    lemma_value_of(fields, execution.env[i].1, k);
}

/// An execution can go on exactly where every field that it refers to is there and saved.
pub proof fn missing_secrets_are_noticed(fields: Seq<FieldModel>, execution: ExecutionModel)
    requires
        fields_ok(fields),
    ensures
        all_saved(fields, execution) <==> forall|i: int|
            0 <= i < execution.env.len() ==> is_saved(fields, (#[trigger] execution.env[i]).1),
{
    assert forall|i: int| 0 <= i < execution.env.len() implies (value_of(
        fields,
        (#[trigger] execution.env[i]).1,
    ) is Some) == is_saved(fields, execution.env[i].1) by {
        let name = execution.env[i].1;
        if exists|k: int| 0 <= k < fields.len() && (#[trigger] fields[k]).name == name {
            let k = choose|k: int| 0 <= k < fields.len() && (#[trigger] fields[k]).name == name;
            assert forall|j: int| 0 <= j < k implies (#[trigger] fields[j]).name != name by {}
            lemma_value_of(fields, name, k);
            if is_saved(fields, name) {
                let m = choose|m: int|
                    0 <= m < fields.len() && (#[trigger] fields[m]).name == name && fields[m].value
                        is Some;
                assert(m == k) by {
                    if m < k {
                        assert(fields[m].name != fields[k].name);
                    } else if k < m {
                        assert(fields[k].name != fields[m].name);
                    }
                }
            }
        } else {
            lemma_no_value(fields, name);
        }
    }
}

/// A field of the name has a value.
pub open spec fn is_saved(fields: Seq<FieldModel>, name: Seq<char>) -> bool {
    exists|k: int|
        0 <= k < fields.len() && (#[trigger] fields[k]).name == name && fields[k].value is Some
}

/// Clearing empties the fields that are named, or all where none is, and leaves the others as they
/// are.
pub proof fn clearing_empties_what_is_named(
    fields: Seq<FieldModel>,
    names: Seq<Seq<char>>,
    i: int,
)
    requires
        0 <= i < fields.len(),
    ensures
        emptied(fields, names).len() == fields.len(),
        emptied(fields, names)[i].name == fields[i].name,
        names.contains(fields[i].name) || names.len() == 0 ==> emptied(fields, names)[i].value
            is None && emptied(fields, names)[i].draft.len() == 0,
        !names.contains(fields[i].name) && names.len() > 0 ==> emptied(fields, names)[i]
            == fields[i],
{
}

/// Declaring names adds an empty field for each that is new, and keeps those that are there.
pub proof fn declared_fields_are_there(fields: Seq<FieldModel>, names: Seq<Seq<char>>, i: int)
    requires
        0 <= i < names.len(),
    ensures
        exists|k: int|
            0 <= k < with_names(fields, names).len() && (#[trigger] with_names(
                fields,
                names,
            )[k]).name == names[i],
        forall|k: int|
            fields.len() <= k < with_names(fields, names).len() ==> (#[trigger] with_names(
                fields,
                names,
            )[k]).value is None,
        forall|k: int|
            0 <= k < fields.len() ==> #[trigger] with_names(fields, names)[k] == fields[k],
{
    lemma_with_names(fields, names);
    assert(has_field(with_names(fields, names), names[i]));
    assert forall|k: int| 0 <= k < fields.len() implies #[trigger] with_names(fields, names)[k]
        == fields[k] by {
        declaring_keeps_saved_values(fields, names, k);
    }
}

/// What is told of a field is its name and whether it has a value.
pub proof fn readiness_tells_no_value(fields: Seq<FieldModel>, i: int)
    requires
        0 <= i < fields.len(),
    ensures
        readiness(fields).len() == fields.len(),
        readiness(fields)[i].name == fields[i].name,
        readiness(fields)[i].ready <==> fields[i].value is Some,
{
}

/// An execution is accepted exactly where its program and its directory are absolute paths, it has
/// at most a hundred and twenty-eight arguments of at most eight kibibytes and thirty-two together,
/// it may run for at most ten minutes, and it binds one to sixty-four properly named variables,
/// no two alike, to fields that could be there.
pub proof fn executions_are_bounded(execution: ExecutionModel)
    ensures
        execution.valid() ==> {
            &&& is_absolute_path(execution.program)
            &&& is_absolute_path(execution.cwd)
            &&& execution.args.len() <= 128
            &&& forall|i: int|
                0 <= i < execution.args.len() ==> utf8_len(#[trigger] execution.args[i]) <= 8192
            &&& total_bytes(execution.args) <= 32_768
            &&& 1 <= execution.timeout_ms <= 600_000
            &&& 1 <= execution.env.len() <= 64
            &&& forall|i: int, j: int|
                0 <= i < j < execution.env.len() ==> ascii_upper((#[trigger] execution.env[i]).0)
                    != ascii_upper((#[trigger] execution.env[j]).0)
        },
        is_absolute_path(execution.program) && is_absolute_path(execution.cwd)
            && execution.args.len() == 0 && 1 <= execution.timeout_ms <= 600_000 && 1
            <= execution.env.len() <= 64 && variables_ok(execution.env) && execution.fields_ok()
            ==> execution.valid(),
        !is_absolute_path(execution.program) || !is_absolute_path(execution.cwd)
            || execution.timeout_ms > 600_000 || execution.timeout_ms == 0 || execution.env.len()
            == 0 ==> execution.fault() == "EXECUTION_INVALID"@,
        execution.shape_ok() && !variables_ok(execution.env) ==> execution.fault()
            == "ENVIRONMENT_INVALID"@,
{
}

/// A variable has a name of letters, digits and underscores that does not begin with a digit.
pub proof fn variables_are_named_properly(name: Seq<char>, i: int)
    requires
        is_variable_name(name),
        0 <= i < name.len(),
    ensures
        name[i] == '_' || ('a' <= name[i] <= 'z') || ('A' <= name[i] <= 'Z') || ('0' <= name[i]
            <= '9'),
        !('0' <= name[0] <= '9'),
        utf8_len(name) <= 256,
{
    let first = name[0];
    assert(first == '_' || ('a' <= first <= 'z') || ('A' <= first <= 'Z'));
}

/// A value can be saved exactly where it is something, not longer than is allowed, and without a
/// zero character.
pub proof fn values_are_bounded(text: Seq<char>)
    ensures
        is_secret_value(text) ==> text.len() > 0 && utf8_len(text) <= 32_768,
        text.len() == 0 ==> !is_secret_value(text),
        is_secret_value(text) ==> forall|i: int|
            0 <= i < text.len() ==> (#[trigger] text[i]) != '\0',
        text.len() > 0 && utf8_len(text) <= 32_768 && (forall|i: int|
            0 <= i < text.len() ==> (#[trigger] text[i]) != '\0') ==> is_secret_value(text),
{
}

/// Names of fields are sixty-four at most, all different, none blank or with white space around it
/// and none longer than two hundred and fifty-six bytes.
pub proof fn field_names_are_bounded(names: Seq<Seq<char>>, allow_empty: bool, i: int)
    requires
        names_valid(names, allow_empty),
    ensures
        names.len() <= 64,
        !allow_empty ==> names.len() > 0,
        0 <= i < names.len() ==> names[i].len() > 0 && trimmed(names[i]) == names[i] && utf8_len(
            names[i],
        ) <= 256,
        names.no_duplicates(),
{
    if 0 <= i < names.len() {
        assert(is_field_name(names[i]));
    }
}

} // verus!
