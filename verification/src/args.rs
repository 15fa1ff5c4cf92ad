//! The command line.
use vstd::prelude::*;

use crate::id::{parsed_uuid, Id};
use crate::mcp::{
    connection_flags, editor_flags, flag, optional_texts, port_text, tag_flags, trust_flags,
    OpenHostEditorParams,
};
use crate::model::{Prefill, PrefillModel, Protocol, SshAuth};
use crate::text::{chars_of, decimal, digit_char, optional_text, same_text, texts};

verus! {

/// What the window is opened with.
#[derive(Debug)]
pub struct LaunchOptions {
    pub codex_edit: bool,
    pub show_temporary: bool,
    pub prefill: Prefill,
    pub result_path: Option<String>,
    pub observed_fingerprint: Option<String>,
    pub observed_algorithm: Option<String>,
}

pub struct OptionsModel {
    pub codex_edit: bool,
    pub show_temporary: bool,
    pub prefill: PrefillModel,
    pub result_path: Option<Seq<char>>,
    pub observed_fingerprint: Option<Seq<char>>,
    pub observed_algorithm: Option<Seq<char>>,
}

impl View for LaunchOptions {
    type V = OptionsModel;

    open spec fn view(&self) -> OptionsModel {
        OptionsModel {
            codex_edit: self.codex_edit,
            show_temporary: self.show_temporary,
            prefill: self.prefill@,
            result_path: optional_text(self.result_path),
            observed_fingerprint: optional_text(self.observed_fingerprint),
            observed_algorithm: optional_text(self.observed_algorithm),
        }
    }
}

impl OptionsModel {
    /// Nothing is asked for.
    pub open spec fn plain() -> OptionsModel {
        OptionsModel {
            codex_edit: false,
            show_temporary: false,
            prefill: PrefillModel::nothing(),
            result_path: None,
            observed_fingerprint: None,
            observed_algorithm: None,
        }
    }
}

impl Default for LaunchOptions {
    fn default() -> (r: Self)
        ensures
            r@ == OptionsModel::plain(),
    {
        LaunchOptions {
            codex_edit: false,
            show_temporary: false,
            prefill: Prefill::default(),
            result_path: None,
            observed_fingerprint: None,
            observed_algorithm: None,
        }
    }
}

impl LaunchOptions {
    /// Options that only fill in a profile.
    pub fn from_prefill(prefill: Prefill) -> (r: Self)
        ensures
            r@ == (OptionsModel { prefill: prefill@, ..OptionsModel::plain() }),
    {
        LaunchOptions {
            codex_edit: false,
            show_temporary: false,
            prefill,
            result_path: None,
            observed_fingerprint: None,
            observed_algorithm: None,
        }
    }
}

/// What the program is started as.
#[derive(Debug)]
pub enum LaunchMode {
    TemporarySecrets(Id),
    Gui(LaunchOptions),
    Tool { request_path: String, result_path: String },
    Mcp,
    Version,
}

pub enum ModeModel {
    TemporarySecrets(Id),
    Gui(OptionsModel),
    Tool { request_path: Seq<char>, result_path: Seq<char> },
    Mcp,
    Version,
}

impl View for LaunchMode {
    type V = ModeModel;

    open spec fn view(&self) -> ModeModel {
        match self {
            LaunchMode::TemporarySecrets(id) => ModeModel::TemporarySecrets(*id),
            LaunchMode::Gui(options) => ModeModel::Gui(options@),
            LaunchMode::Tool { request_path, result_path } => ModeModel::Tool {
                request_path: request_path@,
                result_path: result_path@,
            },
            LaunchMode::Mcp => ModeModel::Mcp,
            LaunchMode::Version => ModeModel::Version,
        }
    }
}

/// What has been read of the command line so far.
pub struct Arguments {
    pub options: LaunchOptions,
    pub request_path: Option<String>,
    pub result_path: Option<String>,
}

pub struct ArgumentsModel {
    pub options: OptionsModel,
    pub request_path: Option<Seq<char>>,
    pub result_path: Option<Seq<char>>,
}

impl View for Arguments {
    type V = ArgumentsModel;

    open spec fn view(&self) -> ArgumentsModel {
        ArgumentsModel {
            options: self.options@,
            request_path: optional_text(self.request_path),
            result_path: optional_text(self.result_path),
        }
    }
}

#[derive(Debug, Clone, Copy, PartialEq, Eq, Structural)]
pub enum Flag {
    CodexEdit,
    Alias,
    Host,
    Port,
    User,
    Protocol,
    Auth,
    KeyPath,
    AgentKeyFingerprint,
    JumpHost,
    Description,
    Tag,
    ObservedFingerprint,
    ObservedAlgorithm,
    ResultFile,
    ToolRequest,
    ToolResult,
}

/// The flag that is written like this.
pub open spec fn flag_named(text: Seq<char>) -> Option<Flag> {
    if text == "--codex-edit"@ {
        Some(Flag::CodexEdit)
    } else if text == "--alias"@ {
        Some(Flag::Alias)
    } else if text == "--host"@ {
        Some(Flag::Host)
    } else if text == "--port"@ {
        Some(Flag::Port)
    } else if text == "--user"@ {
        Some(Flag::User)
    } else if text == "--protocol"@ {
        Some(Flag::Protocol)
    } else if text == "--auth"@ {
        Some(Flag::Auth)
    } else if text == "--key-path"@ {
        Some(Flag::KeyPath)
    } else if text == "--agent-key-fingerprint"@ {
        Some(Flag::AgentKeyFingerprint)
    } else if text == "--jump-host"@ {
        Some(Flag::JumpHost)
    } else if text == "--description"@ {
        Some(Flag::Description)
    } else if text == "--tag"@ {
        Some(Flag::Tag)
    } else if text == "--observed-fingerprint"@ {
        Some(Flag::ObservedFingerprint)
    } else if text == "--observed-algorithm"@ {
        Some(Flag::ObservedAlgorithm)
    } else if text == "--result-file"@ {
        Some(Flag::ResultFile)
    } else if text == "--tool-request"@ {
        Some(Flag::ToolRequest)
    } else if text == "--tool-result"@ {
        Some(Flag::ToolResult)
    } else {
        None
    }
}

fn find_flag(text: &str) -> (r: Option<Flag>)
    ensures
        r == flag_named(text@),
{
    if same_text(text, "--codex-edit") {
        Some(Flag::CodexEdit)
    } else if same_text(text, "--alias") {
        Some(Flag::Alias)
    } else if same_text(text, "--host") {
        Some(Flag::Host)
    } else if same_text(text, "--port") {
        Some(Flag::Port)
    } else if same_text(text, "--user") {
        Some(Flag::User)
    } else if same_text(text, "--protocol") {
        Some(Flag::Protocol)
    } else if same_text(text, "--auth") {
        Some(Flag::Auth)
    } else if same_text(text, "--key-path") {
        Some(Flag::KeyPath)
    } else if same_text(text, "--agent-key-fingerprint") {
        Some(Flag::AgentKeyFingerprint)
    } else if same_text(text, "--jump-host") {
        Some(Flag::JumpHost)
    } else if same_text(text, "--description") {
        Some(Flag::Description)
    } else if same_text(text, "--tag") {
        Some(Flag::Tag)
    } else if same_text(text, "--observed-fingerprint") {
        Some(Flag::ObservedFingerprint)
    } else if same_text(text, "--observed-algorithm") {
        Some(Flag::ObservedAlgorithm)
    } else if same_text(text, "--result-file") {
        Some(Flag::ResultFile)
    } else if same_text(text, "--tool-request") {
        Some(Flag::ToolRequest)
    } else if same_text(text, "--tool-result") {
        Some(Flag::ToolResult)
    } else {
        None
    }
}

pub open spec fn is_digit(c: char) -> bool {
    '0' <= c <= '9'
}

pub open spec fn all_digits(digits: Seq<char>) -> bool {
    forall|i: int| 0 <= i < digits.len() ==> is_digit(#[trigger] digits[i])
}

/// The number that decimal digits stand for.
pub open spec fn digits_value(digits: Seq<char>) -> nat
    decreases digits.len(),
{
    if digits.len() == 0 {
        0
    } else {
        10 * digits_value(digits.drop_last()) + (digits.last() as u32 - '0' as u32) as nat
    }
}

/// The port that a text stands for: decimal digits, perhaps behind a plus sign, of a number that
/// fits.
pub open spec fn port_of(text: Seq<char>) -> Option<u16> {
    let digits = if text.len() > 0 && text[0] == '+' {
        text.skip(1)
    } else {
        text
    };
    if digits.len() > 0 && all_digits(digits) && digits_value(digits) <= u16::MAX {
        Some(digits_value(digits) as u16)
    } else {
        None
    }
}

proof fn lemma_value_grows(digits: Seq<char>, n: int)
    requires
        all_digits(digits),
        0 <= n <= digits.len(),
    ensures
        digits_value(digits.take(n)) <= digits_value(digits),
    decreases digits.len(),
{
    if n == digits.len() {
        assert(digits.take(n) =~= digits);
    } else {
        let short = digits.drop_last();
        assert(forall|i: int| 0 <= i < short.len() ==> short[i] == digits[i]);
        lemma_value_grows(short, n);
        assert(short.take(n) =~= digits.take(n));
    }
}

pub fn parse_port(text: &str) -> (r: Option<u16>)
    ensures
        r == port_of(text@),
{
    let chars = chars_of(text);
    let start: usize = if chars.len() > 0 && chars[0] == '+' {
        1
    } else {
        0
    };
    let ghost digits = if text@.len() > 0 && text@[0] == '+' {
        text@.skip(1)
    } else {
        text@
    };
    assert(digits =~= text@.skip(start as int));
    if chars.len() == start {
        return None;
    }
    let mut value: u32 = 0;
    let mut i: usize = start;
    while i < chars.len()
        invariant
            start <= i <= chars@.len(),
            start <= 1,
            chars@ == text@,
            digits == text@.skip(start as int),
            digits == (if text@.len() > 0 && text@[0] == '+' {
                text@.skip(1)
            } else {
                text@
            }),
            value <= u16::MAX,
            value == digits_value(digits.take(i - start)),
            forall|j: int| 0 <= j < i - start ==> is_digit(#[trigger] digits[j]),
        decreases chars@.len() - i,
    {
        let c = chars[i];
        assert(c == digits[i - start]);
        if c < '0' || c > '9' {
            assert(!is_digit(digits[i - start]));
            return None;
        }
        let ghost more = digits.take(i - start + 1);
        assert(more.drop_last() =~= digits.take(i - start));
        assert(more.last() == c);
        let next: u32 = value * 10 + (c as u32 - '0' as u32);
        if next > 65535 {
            proof {
                if all_digits(digits) {
                    lemma_value_grows(digits, i - start + 1);
                }
            }
            return None;
        }
        value = next;
        i = i + 1;
    }
    assert(digits.take(i - start) =~= digits);
    Some(value as u16)
}

/// The protocol with this name.
pub open spec fn protocol_named(text: Seq<char>) -> Option<Protocol> {
    if text == "ssh"@ {
        Some(Protocol::Ssh)
    } else if text == "telnet"@ {
        Some(Protocol::Telnet)
    } else {
        None
    }
}

pub fn parse_protocol(text: &str) -> (r: Option<Protocol>)
    ensures
        r == protocol_named(text@),
{
    if same_text(text, "ssh") {
        Some(Protocol::Ssh)
    } else if same_text(text, "telnet") {
        Some(Protocol::Telnet)
    } else {
        None
    }
}

/// The way of logging in with this name; a hardware key is used through its handle file.
pub open spec fn auth_named(text: Seq<char>) -> Option<SshAuth> {
    if text == "password"@ {
        Some(SshAuth::Password)
    } else if text == "private-key"@ || text == "private_key"@ || text == "fido"@ || text
        == "fido-handle"@ || text == "fido_handle"@ {
        Some(SshAuth::PrivateKey)
    } else if text == "ssh-agent"@ || text == "ssh_agent"@ || text == "agent"@ {
        Some(SshAuth::SshAgent)
    } else {
        None
    }
}

pub fn parse_auth(text: &str) -> (r: Option<SshAuth>)
    ensures
        r == auth_named(text@),
{
    if same_text(text, "password") {
        Some(SshAuth::Password)
    } else if same_text(text, "private-key") || same_text(text, "private_key") || same_text(
        text,
        "fido",
    ) || same_text(text, "fido-handle") || same_text(text, "fido_handle") {
        Some(SshAuth::PrivateKey)
    } else if same_text(text, "ssh-agent") || same_text(text, "ssh_agent") || same_text(
        text,
        "agent",
    ) {
        Some(SshAuth::SshAgent)
    } else {
        None
    }
}

pub open spec fn invalid_auth() -> Seq<char> {
    "invalid authentication method; use password, private-key/fido-handle (key file or direct FIDO handle), or ssh-agent (running SSH Agent/Pageant)"@
}

impl ArgumentsModel {
    /// Nothing has been read.
    pub open spec fn none() -> ArgumentsModel {
        ArgumentsModel { options: OptionsModel::plain(), request_path: None, result_path: None }
    }

    pub open spec fn with_prefill(self, prefill: PrefillModel) -> ArgumentsModel {
        ArgumentsModel { options: OptionsModel { prefill, ..self.options }, ..self }
    }

    /// The arguments with the value of one more flag, or what is wrong with the value. Of a flag
    /// that occurs twice the last value counts; tags add up.
    pub open spec fn with(self, flag: Flag, value: Seq<char>) -> Result<
        ArgumentsModel,
        Seq<char>,
    > {
        let prefill = self.options.prefill;
        let options = self.options;
        match flag {
            Flag::CodexEdit => Ok(
                ArgumentsModel { options: OptionsModel { codex_edit: true, ..options }, ..self },
            ),
            Flag::Alias => Ok(
                self.with_prefill(PrefillModel { alias: Some(value), ..prefill }),
            ),
            Flag::Host => Ok(
                self.with_prefill(PrefillModel { address: Some(value), ..prefill }),
            ),
            Flag::Port => match port_of(value) {
                Some(port) => Ok(
                    self.with_prefill(PrefillModel { port: Some(port), ..prefill }),
                ),
                None => Err("invalid port"@),
            },
            Flag::User => Ok(
                self.with_prefill(PrefillModel { username: Some(value), ..prefill }),
            ),
            Flag::Protocol => match protocol_named(value) {
                Some(protocol) => Ok(
                    self.with_prefill(PrefillModel { protocol: Some(protocol), ..prefill }),
                ),
                None => Err("invalid protocol"@),
            },
            Flag::Auth => match auth_named(value) {
                Some(auth) => Ok(
                    self.with_prefill(PrefillModel { ssh_auth: Some(auth), ..prefill }),
                ),
                None => Err(invalid_auth()),
            },
            Flag::KeyPath => Ok(
                self.with_prefill(PrefillModel { private_key_path: Some(value), ..prefill }),
            ),
            Flag::AgentKeyFingerprint => Ok(
                self.with_prefill(PrefillModel { agent_key_fingerprint: Some(value), ..prefill }),
            ),
            Flag::JumpHost => Ok(
                self.with_prefill(PrefillModel { jump_alias: Some(value), ..prefill }),
            ),
            Flag::Description => Ok(
                self.with_prefill(PrefillModel { description: Some(value), ..prefill }),
            ),
            Flag::Tag => Ok(
                self.with_prefill(
                    PrefillModel {
                        tags: Some(
                            (match prefill.tags {
                                Some(tags) => tags,
                                None => Seq::empty(),
                            }).push(value),
                        ),
                        ..prefill
                    },
                ),
            ),
            Flag::ObservedFingerprint => Ok(
                ArgumentsModel {
                    options: OptionsModel { observed_fingerprint: Some(value), ..options },
                    ..self
                },
            ),
            Flag::ObservedAlgorithm => Ok(
                ArgumentsModel {
                    options: OptionsModel { observed_algorithm: Some(value), ..options },
                    ..self
                },
            ),
            Flag::ResultFile => Ok(
                ArgumentsModel {
                    options: OptionsModel { result_path: Some(value), ..options },
                    ..self
                },
            ),
            Flag::ToolRequest => Ok(ArgumentsModel { request_path: Some(value), ..self }),
            Flag::ToolResult => Ok(ArgumentsModel { result_path: Some(value), ..self }),
        }
    }
}

/// What the rest of a command line comes to, flag by flag.
pub open spec fn read_from(args: Seq<Seq<char>>, so_far: ArgumentsModel) -> Result<
    ArgumentsModel,
    Seq<char>,
>
    decreases args.len(),
{
    if args.len() == 0 {
        Ok(so_far)
    } else {
        match flag_named(args[0]) {
            None => Err("unknown argument: "@ + args[0]),
            Some(Flag::CodexEdit) => match so_far.with(Flag::CodexEdit, Seq::empty()) {
                Ok(next) => read_from(args.skip(1), next),
                Err(text) => Err(text),
            },
            Some(flag) => if args.len() == 1 {
                Err("missing value for "@ + args[0])
            } else {
                match so_far.with(flag, args[1]) {
                    Ok(next) => read_from(args.skip(2), next),
                    Err(text) => Err(text),
                }
            },
        }
    }
}

/// What the program is started as once every flag is read: the tool needs both its files.
pub open spec fn mode_of(arguments: ArgumentsModel) -> Result<ModeModel, Seq<char>> {
    match (arguments.request_path, arguments.result_path) {
        (None, None) => Ok(ModeModel::Gui(arguments.options)),
        (None, Some(_)) => Err("missing --tool-request"@),
        (Some(_), None) => Err("missing --tool-result"@),
        (Some(request_path), Some(result_path)) => Ok(
            ModeModel::Tool { request_path, result_path },
        ),
    }
}

/// What a command line stands for, or what is wrong with it.
pub open spec fn launch(args: Seq<Seq<char>>) -> Result<ModeModel, Seq<char>> {
    if args.len() > 0 && args[0] == "--temporary-secrets"@ {
        if args.len() != 2 {
            Err("temporary secrets requires only a session UUID"@)
        } else {
            match parsed_uuid(args[1]) {
                Some(value) => Ok(ModeModel::TemporarySecrets(Id { value })),
                None => Err("invalid session UUID"@),
            }
        }
    } else if args.len() == 1 && args[0] == "--mcp"@ {
        Ok(ModeModel::Mcp)
    } else if args.len() == 1 && args[0] == "--version"@ {
        Ok(ModeModel::Version)
    } else {
        match read_from(args, ArgumentsModel::none()) {
            Ok(arguments) => mode_of(arguments),
            Err(text) => Err(text),
        }
    }
}

impl Arguments {
    fn none() -> (r: Self)
        ensures
            r@ == ArgumentsModel::none(),
    {
        Arguments { options: LaunchOptions::default(), request_path: None, result_path: None }
    }

    fn add_tag(&mut self, value: String)
        ensures
            old(self)@.with(Flag::Tag, value@) == Ok::<ArgumentsModel, Seq<char>>(final(self)@),
    {
        let mut tags: Vec<String> = match self.options.prefill.tags.take() {
            Some(tags) => tags,
            None => Vec::new(),
        };
        let ghost before = texts(tags@);
        tags.push(value);
        assert(texts(tags@) =~= before.push(value@));
        assert(before =~= match old(self)@.options.prefill.tags {
            Some(tags) => tags,
            None => Seq::empty(),
        });
        self.options.prefill.tags = Some(tags);
    }

    /// Takes the value of a flag.
    fn set(&mut self, flag: Flag, value: String) -> (r: Result<(), String>)
        requires
            flag != Flag::CodexEdit,
        ensures
            match old(self)@.with(flag, value@) {
                Ok(next) => r is Ok && final(self)@ == next,
                Err(text) => r matches Err(error) && error@ == text,
            },
    {
        match flag {
            Flag::CodexEdit => {},
            Flag::Alias => {
                self.options.prefill.alias = Some(value);
            },
            Flag::Host => {
                self.options.prefill.address = Some(value);
            },
            Flag::Port => match parse_port(value.as_str()) {
                Some(port) => {
                    self.options.prefill.port = Some(port);
                },
                None => {
                    return Err("invalid port".to_owned());
                },
            },
            Flag::User => {
                self.options.prefill.username = Some(value);
            },
            Flag::Protocol => match parse_protocol(value.as_str()) {
                Some(protocol) => {
                    self.options.prefill.protocol = Some(protocol);
                },
                None => {
                    return Err("invalid protocol".to_owned());
                },
            },
            Flag::Auth => match parse_auth(value.as_str()) {
                Some(auth) => {
                    self.options.prefill.ssh_auth = Some(auth);
                },
                None => {
                    return Err(
                        "invalid authentication method; use password, private-key/fido-handle (key file or direct FIDO handle), or ssh-agent (running SSH Agent/Pageant)".to_owned(),
                    );
                },
            },
            Flag::KeyPath => {
                self.options.prefill.private_key_path = Some(value);
            },
            Flag::AgentKeyFingerprint => {
                self.options.prefill.agent_key_fingerprint = Some(value);
            },
            Flag::JumpHost => {
                self.options.prefill.jump_alias = Some(value);
            },
            Flag::Description => {
                self.options.prefill.description = Some(value);
            },
            Flag::Tag => {
                self.add_tag(value);
            },
            Flag::ObservedFingerprint => {
                self.options.observed_fingerprint = Some(value);
            },
            Flag::ObservedAlgorithm => {
                self.options.observed_algorithm = Some(value);
            },
            Flag::ResultFile => {
                self.options.result_path = Some(value);
            },
            Flag::ToolRequest => {
                self.request_path = Some(value);
            },
            Flag::ToolResult => {
                self.result_path = Some(value);
            },
        }
        Ok(())
    }
}

/// The value behind a flag; the index moves to it.
pub fn next_value(args: &Vec<String>, index: &mut usize, flag: &str) -> (r: Result<String, String>)
    requires
        *old(index) < args@.len(),
    ensures
        *final(index) == *old(index) + 1,
        if *final(index) < args@.len() {
            r matches Ok(value) && value@ == args@[*final(index) as int]@
        } else {
            r matches Err(error) && error@ == "missing value for "@ + flag@
        },
{
    let total: usize = args.len();
    *index = *index + 1;
    if *index < total {
        Ok(args[*index].clone())
    } else {
        let mut text = "missing value for ".to_owned();
        text.append(flag);
        Err(text)
    }
}

fn read_arguments(args: &Vec<String>) -> (r: Result<Arguments, String>)
    ensures
        match read_from(texts(args@), ArgumentsModel::none()) {
            Ok(arguments) => r matches Ok(found) && found@ == arguments,
            Err(text) => r matches Err(error) && error@ == text,
        },
{
    let ghost all = texts(args@);
    let mut arguments = Arguments::none();
    let mut index: usize = 0;
    let total: usize = args.len();
    assert(all.skip(0) =~= all);
    while index < total
        invariant
            index <= total,
            total == args@.len(),
            all == texts(args@),
            read_from(all.skip(index as int), arguments@) == read_from(
                all,
                ArgumentsModel::none(),
            ),
        decreases total - index,
    {
        let ghost rest = all.skip(index as int);
        let name = args[index].as_str();
        assert(rest[0] == name@);
        let flag = match find_flag(name) {
            Some(flag) => flag,
            None => {
                let mut text = "unknown argument: ".to_owned();
                text.append(name);
                return Err(text);
            },
        };
        if flag == Flag::CodexEdit {
            arguments.options.codex_edit = true;
            assert(rest.skip(1) =~= all.skip(index + 1));
        } else {
            let ghost before = index;
            let value = match next_value(args, &mut index, name) {
                Ok(value) => value,
                Err(text) => {
                    assert(rest.len() == 1);
                    return Err(text);
                },
            };
            assert(rest[1] == value@);
            if let Err(text) = arguments.set(flag, value) {
                return Err(text);
            }
            assert(rest.skip(2) =~= all.skip(before + 2));
        }
        index = index + 1;
    }
    assert(all.skip(index as int) =~= Seq::empty());
    Ok(arguments)
}

/// Reads the command line.
pub fn parse_args(args: Vec<String>) -> (r: Result<LaunchMode, String>)
    ensures
        match launch(texts(args@)) {
            Ok(mode) => r matches Ok(found) && found@ == mode,
            Err(text) => r matches Err(error) && error@ == text,
        },
{
    let ghost all = texts(args@);
    if args.len() > 0 {
        let first = args[0].as_str();
        assert(first@ == all[0]);
        if same_text(first, "--temporary-secrets") {
            if args.len() != 2 {
                return Err("temporary secrets requires only a session UUID".to_owned());
            }
            assert(args@[1]@ == all[1]);
            return match Id::parse(args[1].as_str()) {
                Some(id) => Ok(LaunchMode::TemporarySecrets(id)),
                None => Err("invalid session UUID".to_owned()),
            };
        }
        if args.len() == 1 && same_text(first, "--mcp") {
            return Ok(LaunchMode::Mcp);
        }
        if args.len() == 1 && same_text(first, "--version") {
            return Ok(LaunchMode::Version);
        }
    }
    let arguments = match read_arguments(&args) {
        Ok(arguments) => arguments,
        Err(text) => {
            return Err(text);
        },
    };
    match (arguments.request_path, arguments.result_path) {
        (None, None) => Ok(LaunchMode::Gui(arguments.options)),
        (None, Some(_)) => Err("missing --tool-request".to_owned()),
        (Some(_), None) => Err("missing --tool-result".to_owned()),
        (Some(request_path), Some(result_path)) => Ok(
            LaunchMode::Tool { request_path, result_path },
        ),
    }
}

proof fn lemma_concat(a: Seq<Seq<char>>, b: Seq<Seq<char>>, m: ArgumentsModel)
    requires
        read_from(a, m) is Ok,
    ensures
        read_from(a + b, m) == read_from(b, read_from(a, m)->Ok_0),
    decreases a.len(),
{
    let both = a + b;
    if a.len() == 0 {
        assert(both =~= b);
    } else {
        assert(both[0] == a[0]);
        let found = flag_named(a[0]);
        if found == Some(Flag::CodexEdit) {
            let next = m.with(Flag::CodexEdit, Seq::empty())->Ok_0;
            assert(both.skip(1) =~= a.skip(1) + b);
            lemma_concat(a.skip(1), b, next);
        } else {
            let next = m.with(found->0, a[1])->Ok_0;
            assert(both[1] == a[1]);
            assert(both.skip(2) =~= a.skip(2) + b);
            lemma_concat(a.skip(2), b, next);
        }
    }
}

/// The flags of the editor are told apart.
proof fn lemma_flag_names()
    ensures
        flag_named("--codex-edit"@) == Some(Flag::CodexEdit),
        flag_named("--alias"@) == Some(Flag::Alias),
        flag_named("--host"@) == Some(Flag::Host),
        flag_named("--port"@) == Some(Flag::Port),
        flag_named("--user"@) == Some(Flag::User),
        flag_named("--protocol"@) == Some(Flag::Protocol),
        flag_named("--auth"@) == Some(Flag::Auth),
        flag_named("--key-path"@) == Some(Flag::KeyPath),
        flag_named("--agent-key-fingerprint"@) == Some(Flag::AgentKeyFingerprint),
        flag_named("--jump-host"@) == Some(Flag::JumpHost),
        flag_named("--description"@) == Some(Flag::Description),
        flag_named("--tag"@) == Some(Flag::Tag),
        flag_named("--observed-fingerprint"@) == Some(Flag::ObservedFingerprint),
        flag_named("--observed-algorithm"@) == Some(Flag::ObservedAlgorithm),
        flag_named("--result-file"@) == Some(Flag::ResultFile),
{
    reveal_strlit("--codex-edit");
    reveal_strlit("--alias");
    reveal_strlit("--host");
    reveal_strlit("--port");
    reveal_strlit("--user");
    reveal_strlit("--protocol");
    reveal_strlit("--auth");
    reveal_strlit("--key-path");
    reveal_strlit("--agent-key-fingerprint");
    reveal_strlit("--jump-host");
    reveal_strlit("--description");
    reveal_strlit("--tag");
    reveal_strlit("--observed-fingerprint");
    reveal_strlit("--observed-algorithm");
    reveal_strlit("--result-file");
    assert("--codex-edit"@.len() == 12);
    assert("--alias"@.len() == 7);
    assert("--host"@.len() == 6);
    assert("--port"@.len() == 6);
    assert("--user"@.len() == 6);
    assert("--protocol"@.len() == 10);
    assert("--auth"@.len() == 6);
    assert("--key-path"@.len() == 10);
    assert("--agent-key-fingerprint"@.len() == 23);
    assert("--jump-host"@.len() == 11);
    assert("--description"@.len() == 13);
    assert("--tag"@.len() == 5);
    assert("--observed-fingerprint"@.len() == 22);
    assert("--observed-algorithm"@.len() == 20);
    assert("--result-file"@.len() == 13);
    assert("--host"@[2] == 'h' && "--port"@[2] == 'p' && "--user"@[2] == 'u' && "--auth"@[2]
        == 'a');
    assert("--protocol"@[2] == 'p' && "--key-path"@[2] == 'k');
    assert("--description"@[2] == 'd' && "--result-file"@[2] == 'r');
}

/// One flag with its value is read.
proof fn lemma_one_flag(name: Seq<char>, f: Flag, value: Option<Seq<char>>, m: ArgumentsModel)
    requires
        flag_named(name) == Some(f),
        f != Flag::CodexEdit,
        value is Some ==> m.with(f, value->0) is Ok,
    ensures
        read_from(flag(name, value), m) == match value {
            Some(text) => m.with(f, text),
            None => Ok(m),
        },
{
    if value is Some {
        let args = flag(name, value);
        assert(args.len() == 2 && args[0] == name && args[1] == value->0);
        assert(args.skip(2) =~= Seq::empty());
        reveal_with_fuel(read_from, 2);
    }
}

proof fn lemma_decimal_reads(n: nat)
    ensures
        all_digits(decimal(n)),
        digits_value(decimal(n)) == n,
        decimal(n).len() > 0,
    decreases n,
{
    let digits = decimal(n);
    if n < 10 {
        assert(digits =~= seq![digit_char(n as int)]);
        assert(digits.drop_last() =~= Seq::empty());
        assert(digits.last() == digit_char(n as int));
        assert(digits_value(digits.drop_last()) == 0);
    } else {
        lemma_decimal_reads(n / 10);
        let front = decimal(n / 10);
        assert(digits.drop_last() =~= front);
        assert(digits.last() == digit_char((n % 10) as int));
        assert forall|i: int| 0 <= i < digits.len() implies is_digit(#[trigger] digits[i]) by {
            if i < front.len() {
                assert(digits[i] == front[i]);
            }
        }
    }
}

pub proof fn lemma_port_reads(port: u16)
    ensures
        port_of(decimal(port as nat)) == Some(port),
{
    lemma_decimal_reads(port as nat);
    assert(is_digit(decimal(port as nat)[0]));
}

/// What the parameters of the editor ask to be filled in.
pub open spec fn prefill_of(params: OpenHostEditorParams) -> PrefillModel {
    PrefillModel {
        alias: Some(params.alias@),
        description: optional_text(params.description),
        tags: if optional_texts(params.tags).len() == 0 {
            None
        } else {
            Some(optional_texts(params.tags))
        },
        address: optional_text(params.host),
        port: params.port,
        username: optional_text(params.user),
        protocol: match params.protocol {
            Some(name) => protocol_named(name@),
            None => None,
        },
        ssh_auth: match params.auth {
            Some(name) => auth_named(name@),
            None => None,
        },
        private_key_path: optional_text(params.key_path),
        agent_key_fingerprint: optional_text(params.agent_key_fingerprint),
        jump_alias: optional_text(params.jump_host),
    }
}

/// The parameters name a protocol and a way of logging in that exist, where they name one.
pub open spec fn names_known(params: OpenHostEditorParams) -> bool {
    &&& params.protocol matches Some(name) ==> protocol_named(name@) is Some
    &&& params.auth matches Some(name) ==> auth_named(name@) is Some
}

proof fn lemma_connection_flags(params: OpenHostEditorParams, m: ArgumentsModel)
    requires
        names_known(params),
        m.options.prefill == PrefillModel::nothing(),
    ensures
        ({
            let wanted = prefill_of(params);
            read_from(connection_flags(params), m) == Ok::<ArgumentsModel, Seq<char>>(
                m.with_prefill(
                    PrefillModel {
                        description: None,
                        tags: None,
                        agent_key_fingerprint: None,
                        jump_alias: None,
                        ..wanted
                    },
                ),
            )
        }),
{
    lemma_flag_names();
    if params.port is Some {
        lemma_port_reads(params.port->0);
    }
    let a1 = flag("--alias"@, Some(params.alias@));
    lemma_one_flag("--alias"@, Flag::Alias, Some(params.alias@), m);
    let m1 = read_from(a1, m)->Ok_0;
    let v2 = optional_text(params.host);
    lemma_one_flag("--host"@, Flag::Host, v2, m1);
    lemma_concat(a1, flag("--host"@, v2), m);
    let a2 = a1 + flag("--host"@, v2);
    let m2 = read_from(a2, m)->Ok_0;
    let v3 = port_text(params.port);
    lemma_one_flag("--port"@, Flag::Port, v3, m2);
    lemma_concat(a2, flag("--port"@, v3), m);
    let a3 = a2 + flag("--port"@, v3);
    let m3 = read_from(a3, m)->Ok_0;
    let v4 = optional_text(params.user);
    lemma_one_flag("--user"@, Flag::User, v4, m3);
    lemma_concat(a3, flag("--user"@, v4), m);
    let a4 = a3 + flag("--user"@, v4);
    let m4 = read_from(a4, m)->Ok_0;
    let v5 = optional_text(params.protocol);
    lemma_one_flag("--protocol"@, Flag::Protocol, v5, m4);
    lemma_concat(a4, flag("--protocol"@, v5), m);
    let a5 = a4 + flag("--protocol"@, v5);
    let m5 = read_from(a5, m)->Ok_0;
    let v6 = optional_text(params.auth);
    lemma_one_flag("--auth"@, Flag::Auth, v6, m5);
    lemma_concat(a5, flag("--auth"@, v6), m);
    let a6 = a5 + flag("--auth"@, v6);
    let m6 = read_from(a6, m)->Ok_0;
    let v7 = optional_text(params.key_path);
    lemma_one_flag("--key-path"@, Flag::KeyPath, v7, m6);
    lemma_concat(a6, flag("--key-path"@, v7), m);
}

proof fn lemma_tag_flags(tags: Seq<Seq<char>>, m: ArgumentsModel)
    requires
        m.options.prefill.tags is None,
    ensures
        read_from(tag_flags(tags), m) == Ok::<ArgumentsModel, Seq<char>>(
            m.with_prefill(
                PrefillModel {
                    tags: if tags.len() == 0 {
                        None
                    } else {
                        Some(tags)
                    },
                    ..m.options.prefill
                },
            ),
        ),
    decreases tags.len(),
{
    if tags.len() > 0 {
        let short = tags.drop_last();
        lemma_tag_flags(short, m);
        lemma_flag_names();
        let n = read_from(tag_flags(short), m)->Ok_0;
        let last = seq!["--tag"@, tags.last()];
        assert(last =~= flag("--tag"@, Some(tags.last())));
        lemma_one_flag("--tag"@, Flag::Tag, Some(tags.last()), n);
        lemma_concat(tag_flags(short), last, m);
        assert(short.push(tags.last()) =~= tags);
        if short.len() == 0 {
            assert(Seq::<Seq<char>>::empty().push(tags.last()) =~= tags);
        }
    }
}

proof fn lemma_trust_flags(params: OpenHostEditorParams, m: ArgumentsModel)
    requires
        m.options.prefill.agent_key_fingerprint is None,
        m.options.prefill.jump_alias is None,
        m.options.prefill.description is None,
        m.options.prefill.tags is None,
        m.options.observed_fingerprint is None,
        m.options.observed_algorithm is None,
    ensures
        read_from(trust_flags(params), m) == Ok::<ArgumentsModel, Seq<char>>(
            ArgumentsModel {
                options: OptionsModel {
                    prefill: PrefillModel {
                        description: prefill_of(params).description,
                        tags: prefill_of(params).tags,
                        agent_key_fingerprint: prefill_of(params).agent_key_fingerprint,
                        jump_alias: prefill_of(params).jump_alias,
                        ..m.options.prefill
                    },
                    observed_fingerprint: optional_text(params.observed_fingerprint),
                    observed_algorithm: optional_text(params.observed_algorithm),
                    ..m.options
                },
                ..m
            },
        ),
{
    lemma_flag_names();
    let v1 = optional_text(params.agent_key_fingerprint);
    lemma_one_flag("--agent-key-fingerprint"@, Flag::AgentKeyFingerprint, v1, m);
    let a1 = flag("--agent-key-fingerprint"@, v1);
    let m1 = read_from(a1, m)->Ok_0;
    let v2 = optional_text(params.jump_host);
    lemma_one_flag("--jump-host"@, Flag::JumpHost, v2, m1);
    lemma_concat(a1, flag("--jump-host"@, v2), m);
    let a2 = a1 + flag("--jump-host"@, v2);
    let m2 = read_from(a2, m)->Ok_0;
    let v3 = optional_text(params.description);
    lemma_one_flag("--description"@, Flag::Description, v3, m2);
    lemma_concat(a2, flag("--description"@, v3), m);
    let a3 = a2 + flag("--description"@, v3);
    let m3 = read_from(a3, m)->Ok_0;
    let v4 = optional_text(params.observed_fingerprint);
    lemma_one_flag("--observed-fingerprint"@, Flag::ObservedFingerprint, v4, m3);
    lemma_concat(a3, flag("--observed-fingerprint"@, v4), m);
    let a4 = a3 + flag("--observed-fingerprint"@, v4);
    let m4 = read_from(a4, m)->Ok_0;
    let v5 = optional_text(params.observed_algorithm);
    lemma_one_flag("--observed-algorithm"@, Flag::ObservedAlgorithm, v5, m4);
    lemma_concat(a4, flag("--observed-algorithm"@, v5), m);
    let a5 = a4 + flag("--observed-algorithm"@, v5);
    let m5 = read_from(a5, m)->Ok_0;
    lemma_tag_flags(optional_texts(params.tags), m5);
    lemma_concat(a5, tag_flags(optional_texts(params.tags)), m);
}

/// What a tool asks the editor to show is what the editor reads from its command line: every
/// detail arrives as it was given.
pub proof fn the_editor_shows_what_was_asked(params: OpenHostEditorParams)
    requires
        names_known(params),
    ensures
        read_from(editor_flags(params), ArgumentsModel::none()) == Ok::<ArgumentsModel, Seq<char>>(
            ArgumentsModel {
                options: OptionsModel {
                    prefill: prefill_of(params),
                    observed_fingerprint: optional_text(params.observed_fingerprint),
                    observed_algorithm: optional_text(params.observed_algorithm),
                    ..OptionsModel::plain()
                },
                ..ArgumentsModel::none()
            },
        ),
{
    let m = ArgumentsModel::none();
    lemma_connection_flags(params, m);
    let n = read_from(connection_flags(params), m)->Ok_0;
    lemma_trust_flags(params, n);
    lemma_concat(connection_flags(params), trust_flags(params), m);
}

/// The files of the tool are read from behind their flags, in either order; one without the other
/// is refused, and without both the window opens.
pub proof fn the_tool_needs_both_files(request: Seq<char>, result: Seq<char>)
    ensures
        read_from(
            seq!["--tool-request"@, request, "--tool-result"@, result],
            ArgumentsModel::none(),
        ) == Ok::<ArgumentsModel, Seq<char>>(
            ArgumentsModel {
                options: OptionsModel::plain(),
                request_path: Some(request),
                result_path: Some(result),
            },
        ),
        forall|arguments: ArgumentsModel|
            arguments.request_path is Some && arguments.result_path is Some ==> #[trigger] mode_of(
                arguments,
            ) == Ok::<ModeModel, Seq<char>>(
                ModeModel::Tool {
                    request_path: arguments.request_path->0,
                    result_path: arguments.result_path->0,
                },
            ),
        forall|arguments: ArgumentsModel|
            (arguments.request_path is Some) != (arguments.result_path is Some)
                ==> #[trigger] mode_of(arguments) is Err,
        forall|arguments: ArgumentsModel|
            arguments.request_path is None && arguments.result_path is None ==> #[trigger] mode_of(
                arguments,
            ) == Ok::<ModeModel, Seq<char>>(ModeModel::Gui(arguments.options)),
{
    let none = ArgumentsModel::none();
    lemma_flag_names();
    lemma_tool_flag_names();
    let a = flag("--tool-request"@, Some(request));
    let b = flag("--tool-result"@, Some(result));
    lemma_one_flag("--tool-request"@, Flag::ToolRequest, Some(request), none);
    let next = read_from(a, none)->Ok_0;
    lemma_one_flag("--tool-result"@, Flag::ToolResult, Some(result), next);
    lemma_concat(a, b, none);
    assert(a + b =~= seq!["--tool-request"@, request, "--tool-result"@, result]);
}

proof fn lemma_tool_flag_names()
    ensures
        flag_named("--tool-request"@) == Some(Flag::ToolRequest),
        flag_named("--tool-result"@) == Some(Flag::ToolResult),
{
    reveal_strlit("--codex-edit");
    reveal_strlit("--alias");
    reveal_strlit("--host");
    reveal_strlit("--port");
    reveal_strlit("--user");
    reveal_strlit("--protocol");
    reveal_strlit("--auth");
    reveal_strlit("--key-path");
    reveal_strlit("--agent-key-fingerprint");
    reveal_strlit("--jump-host");
    reveal_strlit("--description");
    reveal_strlit("--tag");
    reveal_strlit("--observed-fingerprint");
    reveal_strlit("--observed-algorithm");
    reveal_strlit("--result-file");
    reveal_strlit("--tool-request");
    reveal_strlit("--tool-result");
    assert("--codex-edit"@.len() == 12);
    assert("--alias"@.len() == 7);
    assert("--host"@.len() == 6);
    assert("--port"@.len() == 6);
    assert("--user"@.len() == 6);
    assert("--protocol"@.len() == 10);
    assert("--auth"@.len() == 6);
    assert("--key-path"@.len() == 10);
    assert("--agent-key-fingerprint"@.len() == 23);
    assert("--jump-host"@.len() == 11);
    assert("--description"@.len() == 13);
    assert("--tag"@.len() == 5);
    assert("--observed-fingerprint"@.len() == 22);
    assert("--observed-algorithm"@.len() == 20);
    assert("--result-file"@.len() == 13);
    assert("--tool-request"@.len() == 14);
    assert("--tool-result"@.len() == 13);
    assert("--description"@[2] == 'd' && "--result-file"@[2] == 'r' && "--tool-result"@[2]
        == 't');
}

/// The editor of another program and the file that it answers to are read from their flags, and
/// nothing else changes.
pub proof fn answers_go_where_the_flag_says(path: Seq<char>, m: ArgumentsModel)
    ensures
        read_from(flag("--result-file"@, Some(path)), m) == Ok::<ArgumentsModel, Seq<char>>(
            ArgumentsModel {
                options: OptionsModel { result_path: Some(path), ..m.options },
                ..m
            },
        ),
        read_from(seq!["--codex-edit"@], m) == Ok::<ArgumentsModel, Seq<char>>(
            ArgumentsModel { options: OptionsModel { codex_edit: true, ..m.options }, ..m },
        ),
{
    lemma_flag_names();
    lemma_one_flag("--result-file"@, Flag::ResultFile, Some(path), m);
    let args = seq!["--codex-edit"@];
    assert(args.skip(1) =~= Seq::empty());
    reveal_with_fuel(read_from, 2);
}

/// An argument that is no flag, and a flag without its value, are refused by name.
pub proof fn unknown_arguments_are_refused(
    name: Seq<char>,
    rest: Seq<Seq<char>>,
    m: ArgumentsModel,
)
    ensures
        flag_named(name) is None ==> read_from(seq![name] + rest, m) == Err::<
            ArgumentsModel,
            Seq<char>,
        >("unknown argument: "@ + name),
        flag_named(name) is Some && flag_named(name) != Some(Flag::CodexEdit) ==> read_from(
            seq![name],
            m,
        ) == Err::<ArgumentsModel, Seq<char>>("missing value for "@ + name),
{
    assert((seq![name] + rest)[0] == name);
}

/// Numbers up to the largest port are ports, and greater ones are not.
pub proof fn ports_are_small_numbers(n: nat)
    ensures
        n <= 65_535 ==> port_of(decimal(n)) == Some(n as u16),
        n > 65_535 ==> port_of(decimal(n)) is None,
        n <= 65_535 ==> port_of("+"@ + decimal(n)) == Some(n as u16),
        port_of(Seq::empty()) is None,
{
    lemma_decimal_reads(n);
    reveal_strlit("+");
    assert(is_digit(decimal(n)[0]));
    let signed = "+"@ + decimal(n);
    assert(signed[0] == '+');
    assert(signed.skip(1) =~= decimal(n));
}

/// A port consists of digits, perhaps behind a plus sign.
pub proof fn ports_consist_of_digits(text: Seq<char>, i: int)
    requires
        port_of(text) is Some,
        1 <= i < text.len(),
    ensures
        '0' <= text[i] <= '9',
        text[0] == '+' || '0' <= text[0] <= '9',
{
    if text[0] == '+' {
        assert(text.skip(1)[i - 1] == text[i]);
        assert(is_digit(text.skip(1)[i - 1]));
    } else {
        assert(is_digit(text[i]) && is_digit(text[0]));
    }
}

/// Protocols and ways of logging in go by their names, and by no others.
pub proof fn names_mean_what_they_say(text: Seq<char>)
    ensures
        protocol_named(text) == Some(Protocol::Ssh) <==> text == "ssh"@,
        protocol_named(text) == Some(Protocol::Telnet) <==> text == "telnet"@,
        auth_named(text) == Some(SshAuth::Password) <==> text == "password"@,
        text == "ssh-agent"@ || text == "ssh_agent"@ || text == "agent"@ <==> auth_named(text)
            == Some(SshAuth::SshAgent),
        text == "private-key"@ || text == "private_key"@ || text == "fido"@ || text
            == "fido-handle"@ || text == "fido_handle"@ <==> auth_named(text) == Some(
            SshAuth::PrivateKey,
        ),
{
    reveal_strlit("ssh");
    reveal_strlit("telnet");
    reveal_strlit("password");
    reveal_strlit("private-key");
    reveal_strlit("private_key");
    reveal_strlit("fido");
    reveal_strlit("fido-handle");
    reveal_strlit("fido_handle");
    reveal_strlit("ssh-agent");
    reveal_strlit("ssh_agent");
    reveal_strlit("agent");
    assert("ssh"@.len() == 3 && "telnet"@.len() == 6 && "password"@.len() == 8);
    assert("private-key"@.len() == 11 && "private_key"@.len() == 11 && "fido"@.len() == 4);
    assert("fido-handle"@.len() == 11 && "fido_handle"@.len() == 11);
    assert("ssh-agent"@.len() == 9 && "ssh_agent"@.len() == 9 && "agent"@.len() == 5);
}

} // verus!
