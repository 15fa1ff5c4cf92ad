//! What an editor that was opened for someone else reports back, and the names of exported files.
use vstd::prelude::*;

use crate::json::{
    lemma_says_at, lemma_says_optional, member, object, optional, quoted, says, Lines,
};
use crate::text::{copy_optional, decimal, decimal_string, optional_text, same_text};

verus! {

/// How much an outcome weighs.
pub open spec fn weight(status: Seq<char>) -> int {
    if status == "trusted"@ {
        2
    } else if status == "saved"@ {
        1
    } else {
        0
    }
}

/// An outcome takes the place of another.
pub open spec fn replaces(existing: Seq<char>, new: Seq<char>) -> bool {
    weight(new) > weight(existing) || new == existing
}

fn priority(status: &str) -> (r: u8)
    ensures
        r == weight(status@),
{
    proof {
        reveal_strlit("trusted");
        reveal_strlit("saved");
        assert("trusted"@.len() == 7);
        assert("saved"@.len() == 5);
    }
    if same_text(status, "trusted") {
        2
    } else if same_text(status, "saved") {
        1
    } else {
        0
    }
}

pub fn should_replace_callback(existing: &str, new: &str) -> (r: bool)
    ensures
        r == replaces(existing@, new@),
{
    priority(new) > priority(existing) || same_text(new, existing)
}

/// What has been decided and not yet reported.
#[derive(Debug)]
pub struct PendingCallback {
    pub status: &'static str,
    pub alias: Option<String>,
}

/// The report that is owed: whether it was made, what it will say, and where it goes.
#[derive(Debug)]
pub struct Callback {
    pub written: bool,
    pub pending: Option<PendingCallback>,
    pub result_path: Option<String>,
}

/// What a report says.
pub struct ReportModel {
    pub status: Seq<char>,
    pub alias: Option<Seq<char>>,
}

pub struct CallbackModel {
    pub written: bool,
    pub pending: Option<ReportModel>,
    pub result_path: Option<Seq<char>>,
}

pub open spec fn pending_text(pending: Option<PendingCallback>) -> Option<ReportModel> {
    match pending {
        Some(callback) => Some(
            ReportModel { status: callback.status@, alias: optional_text(callback.alias) },
        ),
        None => None,
    }
}

impl View for Callback {
    type V = CallbackModel;

    open spec fn view(&self) -> CallbackModel {
        CallbackModel {
            written: self.written,
            pending: pending_text(self.pending),
            result_path: optional_text(self.result_path),
        }
    }
}

/// The report as JSON.
pub open spec fn callback_json(status: Seq<char>, alias: Option<Seq<char>>) -> Seq<char> {
    object(0, seq![member(0, "status"@, quoted(status))] + optional(0, "alias"@, alias))
}

/// What to do to make the report.
#[derive(Debug, PartialEq, Eq)]
pub enum Flush {
    /// Nothing is left to do.
    Done,
    /// Write the text to the file, and say how that went.
    Write { path: String, text: String },
}

impl CallbackModel {
    /// The report once an outcome was decided.
    pub open spec fn decided(self, status: Seq<char>, alias: Option<Seq<char>>) -> CallbackModel {
        if self.written || (self.pending is Some && !replaces(self.pending->0.status, status)) {
            self
        } else {
            CallbackModel { pending: Some(ReportModel { status, alias }), ..self }
        }
    }

    /// The report once it was made.
    pub open spec fn made(self) -> CallbackModel {
        CallbackModel { written: true, pending: None, ..self }
    }

    /// The report has to be written to a file.
    pub open spec fn must_write(self) -> bool {
        !self.written && self.pending is Some && self.result_path is Some
    }

    /// The report once it was tried to make it without a file.
    pub open spec fn flushed(self) -> CallbackModel {
        if !self.written && self.pending is Some && self.result_path is None {
            self.made()
        } else {
            self
        }
    }
}

impl Callback {
    pub fn new(result_path: Option<String>) -> (r: Self)
        ensures
            r@ == (CallbackModel {
                written: false,
                pending: None,
                result_path: optional_text(result_path),
            }),
    {
        Callback { written: false, pending: None, result_path }
    }

    /// Notes an outcome and makes the report. An outcome that was committed is not taken back.
    pub fn write_callback(&mut self, status: &'static str, alias: Option<&str>) -> (r: Flush)
        ensures
            ({
                let wanted = match alias {
                    Some(alias) => Some(alias@),
                    None => None,
                };
                let now = old(self)@.decided(status@, wanted);
                &&& final(self)@ == now.flushed()
                &&& is_flush(now, r)
            }),
    {
        if !self.written {
            let replace = match &self.pending {
                None => true,
                Some(pending) => should_replace_callback(pending.status, status),
            };
            if replace {
                let alias = match alias {
                    Some(alias) => Some(alias.to_owned()),
                    None => None,
                };
                self.pending = Some(PendingCallback { status, alias });
            }
        }
        self.flush_callback()
    }

    /// Makes the report that is owed.
    pub fn flush_callback(&mut self) -> (r: Flush)
        ensures
            final(self)@ == old(self)@.flushed(),
            is_flush(old(self)@, r),
    {
        if self.written {
            return Flush::Done;
        }
        let text = match &self.pending {
            None => {
                return Flush::Done;
            },
            Some(callback) => {
                let mut lines = Lines::new(0);
                lines.put_text("status", callback.status);
                lines.put_optional("alias", &callback.alias);
                assert(lines@ =~= seq![member(0, "status"@, quoted(callback.status@))] + optional(
                    0,
                    "alias"@,
                    optional_text(callback.alias),
                ));
                lines.into_object()
            },
        };
        match copy_optional(&self.result_path) {
            None => {
                self.written = true;
                self.pending = None;
                Flush::Done
            },
            Some(path) => Flush::Write { path, text },
        }
    }

    /// Notes how writing the file went.
    pub fn flushed(&mut self, ok: bool)
        ensures
            final(self)@ == if ok {
                old(self)@.made()
            } else {
                old(self)@
            },
    {
        if ok {
            self.written = true;
            self.pending = None;
        }
    }
}

/// What is done to make the report.
pub open spec fn is_flush(callback: CallbackModel, flush: Flush) -> bool {
    match flush {
        Flush::Done => !callback.must_write(),
        Flush::Write { path, text } => callback.must_write() && Some(path@) == callback.result_path
            && text@ == callback_json(callback.pending->0.status, callback.pending->0.alias),
    }
}

/// Nothing that happens later takes back an outcome that was decided: it is reported, or one
/// that weighs as much or more.
pub proof fn outcomes_are_not_downgraded(
    callback: CallbackModel,
    status: Seq<char>,
    alias: Option<Seq<char>>,
)
    requires
        callback.pending is Some,
    ensures
        callback.decided(status, alias).pending is Some,
        weight(callback.decided(status, alias).pending->0.status) >= weight(callback.pending->0.status),
        callback.written ==> callback.decided(status, alias) == callback,
{
}

/// The name of an exported file. The first has no number.
pub open spec fn export_name(index: nat) -> Seq<char> {
    if index == 0 {
        "codex-hosts-export.csv"@
    } else {
        "codex-hosts-export-"@ + decimal(index) + ".csv"@
    }
}

pub fn export_file_name(index: u32) -> (r: String)
    ensures
        r@ == export_name(index as nat),
{
    if index == 0 {
        "codex-hosts-export.csv".to_owned()
    } else {
        let mut name = "codex-hosts-export-".to_owned();
        name.append(decimal_string(index as u64).as_str());
        name.append(".csv");
        name
    }
}

/// The next thing to do to export into a directory without overwriting anything.
#[derive(Debug, Clone, Copy, PartialEq, Eq, Structural)]
pub enum ExportStep {
    /// Create the file with this number, which must not exist.
    Create { index: u32 },
    /// Write to the file that was created.
    Write { index: u32 },
    /// Remove the file that could not be written, then fail as writing did.
    Remove { index: u32 },
    Done { index: u32 },
    /// Fail as creating the file did.
    Failed,
    /// All names are taken.
    NoName,
}

/// How a step of the export went.
#[derive(Debug, Clone, Copy, PartialEq, Eq, Structural)]
pub enum ExportEvent {
    Succeeded,
    AlreadyExists,
    Failed,
}

impl ExportStep {
    pub open spec fn after(self, event: ExportEvent) -> ExportStep {
        match self {
            ExportStep::Create { index } => match event {
                ExportEvent::Succeeded => ExportStep::Write { index },
                ExportEvent::AlreadyExists => if index == u32::MAX {
                    ExportStep::NoName
                } else {
                    ExportStep::Create { index: (index + 1) as u32 }
                },
                ExportEvent::Failed => ExportStep::Failed,
            },
            ExportStep::Write { index } => match event {
                ExportEvent::Succeeded => ExportStep::Done { index },
                _ => ExportStep::Remove { index },
            },
            ExportStep::Remove { .. } => ExportStep::Failed,
            done => done,
        }
    }

    pub fn first() -> (r: Self)
        ensures
            r == (ExportStep::Create { index: 0 }),
    {
        ExportStep::Create { index: 0 }
    }

    pub fn next(self, event: ExportEvent) -> (r: Self)
        ensures
            r == self.after(event),
    {
        match self {
            ExportStep::Create { index } => match event {
                ExportEvent::Succeeded => ExportStep::Write { index },
                ExportEvent::AlreadyExists => if index == u32::MAX {
                    ExportStep::NoName
                } else {
                    ExportStep::Create { index: index + 1 }
                },
                ExportEvent::Failed => ExportStep::Failed,
            },
            ExportStep::Write { index } => match event {
                ExportEvent::Succeeded => ExportStep::Done { index },
                _ => ExportStep::Remove { index },
            },
            ExportStep::Remove { .. } => ExportStep::Failed,
            done => done,
        }
    }
}

/// An export only writes to a file that it created itself, and only removes such a file.
pub proof fn exports_do_not_overwrite(step: ExportStep, event: ExportEvent, index: u32)
    ensures
        step.after(event) == (ExportStep::Write { index }) && step != (ExportStep::Write { index })
            ==> step == (ExportStep::Create { index }) && event == ExportEvent::Succeeded,
        step.after(event) == (ExportStep::Remove { index }) && step != (ExportStep::Remove {
            index,
        }) ==> step == (ExportStep::Write { index }) && event != ExportEvent::Succeeded,
{
}

/// The first outcome is taken; a heavier one replaces a lighter one and not the other way round;
/// and what was reported already stays as it was.
pub proof fn outcomes_are_reported(
    callback: CallbackModel,
    status: Seq<char>,
    alias: Option<Seq<char>>,
)
    ensures
        !callback.written && callback.pending is None ==> callback.decided(status, alias).pending
            == Some(ReportModel { status, alias }),
        !callback.written && status == "trusted"@ ==> callback.decided(status, alias).pending
            == Some(ReportModel { status, alias }),
        !callback.written && callback.pending is Some && callback.pending->0.status == status
            ==> callback.decided(status, alias).pending == Some(ReportModel { status, alias }),
        callback.pending is Some && callback.pending->0.status == "trusted"@ && status
            != "trusted"@ ==> callback.decided(status, alias) == callback,
        callback.pending is Some && callback.pending->0.status == "saved"@ && status
            == "cancelled"@ ==> callback.decided(status, alias) == callback,
        !callback.written && callback.pending is Some && callback.pending->0.status
            == "cancelled"@ && status == "saved"@ ==> callback.decided(status, alias).pending
            == Some(ReportModel { status, alias }),
        callback.decided(status, alias).result_path == callback.result_path,
        callback.decided(status, alias).written == callback.written,
{
    reveal_strlit("trusted");
    reveal_strlit("saved");
    reveal_strlit("cancelled");
    assert("trusted"@.len() == 7);
    assert("saved"@.len() == 5);
    assert("cancelled"@.len() == 9);
    if callback.pending is Some && callback.pending->0.status != "trusted"@ {
        assert(weight(callback.pending->0.status) < 2);
    }
}

/// What is decided is written to the file that was named, once; without a file it counts as
/// reported.
pub proof fn reports_go_to_their_file(callback: CallbackModel, flush: Flush)
    requires
        is_flush(callback, flush),
        !callback.written,
        callback.pending is Some,
    ensures
        callback.result_path is Some ==> (flush matches Flush::Write { path, text } && Some(path@)
            == callback.result_path && says(
            text@,
            "status"@,
            quoted(callback.pending->0.status),
        )),
        callback.result_path is Some && callback.pending->0.alias is Some ==> says(
            flush->text@,
            "alias"@,
            quoted(callback.pending->0.alias->0),
        ),
        callback.result_path is None ==> flush is Done && callback.flushed().written,
        callback.made().written && callback.made().pending is None,
        callback.result_path is Some ==> callback.flushed() == callback,
{
    if callback.result_path is Some {
        let status = callback.pending->0.status;
        let alias = callback.pending->0.alias;
        let base = seq![member(0, "status"@, quoted(status))];
        let none = Seq::<Seq<char>>::empty();
        let whole = base + optional(0, "alias"@, alias);
        lemma_says_at(0, whole, 0, "status"@, quoted(status));
        if alias is Some {
            assert(whole =~= base + optional(0, "alias"@, alias) + none);
            lemma_says_optional(0, base, "alias"@, alias, none);
        }
    }
}

/// Exports count up through the names until one is free, and end where the file is written.
pub proof fn exports_find_a_free_name(index: u32)
    ensures
        (ExportStep::Create { index }).after(ExportEvent::Succeeded) == (ExportStep::Write { index }),
        index < u32::MAX ==> (ExportStep::Create { index }).after(ExportEvent::AlreadyExists)
            == (ExportStep::Create { index: (index + 1) as u32 }),
        (ExportStep::Create { index: u32::MAX }).after(ExportEvent::AlreadyExists)
            == ExportStep::NoName,
        (ExportStep::Write { index }).after(ExportEvent::Succeeded) == (ExportStep::Done { index }),
        (ExportStep::Write { index }).after(ExportEvent::Failed) == (ExportStep::Remove { index }),
        (ExportStep::Create { index }).after(ExportEvent::Failed) == ExportStep::Failed,
        export_name(0) == "codex-hosts-export.csv"@,
        index > 0 ==> export_name(index as nat) == "codex-hosts-export-"@ + decimal(index as nat)
            + ".csv"@,
{
}

} // verus!
