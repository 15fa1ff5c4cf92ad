//! What the window tells the user, before it is put into the user's language.
use vstd::prelude::*;

use crate::i18n::{filled, has_key, text_of, Catalog, Fill};
use crate::status::{kind_of_key, status_kind_for_key, StatusKind};

verus! {

/// A text that is known, or a text of the catalog with its placeholders filled in.
#[derive(Debug)]
pub enum Message {
    Plain(String),
    Keyed { key: &'static str, fills: Vec<Fill> },
    /// A failure that could not be undone completely.
    RolledBack { key: &'static str, fills: Vec<Fill>, rollback: String },
}

/// Placeholders and what replaces them.
pub open spec fn fill_texts(fills: Seq<Fill>) -> Seq<(Seq<char>, Seq<char>)> {
    Seq::new(fills.len(), |i: int| (fills[i].name@, fills[i].value@))
}

#[verifier::ext_equal]
pub enum MessageModel {
    Plain(Seq<char>),
    Keyed(Seq<char>, Seq<(Seq<char>, Seq<char>)>),
    RolledBack(Seq<char>, Seq<(Seq<char>, Seq<char>)>, Seq<char>),
}

impl View for Message {
    type V = MessageModel;

    open spec fn view(&self) -> MessageModel {
        match self {
            Message::Plain(text) => MessageModel::Plain(text@),
            Message::Keyed { key, fills } => MessageModel::Keyed(key@, fill_texts(fills@)),
            Message::RolledBack { key, fills, rollback } => MessageModel::RolledBack(
                key@,
                fill_texts(fills@),
                rollback@,
            ),
        }
    }
}

impl MessageModel {
    /// A text of the catalog as it is.
    pub open spec fn text(key: Seq<char>) -> MessageModel {
        MessageModel::Keyed(key, Seq::empty())
    }

    /// A text of the catalog with one placeholder.
    pub open spec fn about(key: Seq<char>, name: Seq<char>, value: Seq<char>) -> MessageModel {
        MessageModel::Keyed(key, seq![(name, value)])
    }

    /// A text of the catalog with two placeholders.
    pub open spec fn about_both(
        key: Seq<char>,
        name: Seq<char>,
        value: Seq<char>,
        other_name: Seq<char>,
        other_value: Seq<char>,
    ) -> MessageModel {
        MessageModel::Keyed(key, seq![(name, value), (other_name, other_value)])
    }

    /// A failure, and what went wrong while it was undone.
    pub open spec fn failed(
        key: Seq<char>,
        error: Seq<char>,
        rollback: Option<Seq<char>>,
    ) -> MessageModel {
        match rollback {
            Some(text) => MessageModel::RolledBack(key, seq![("error"@, error)], text),
            None => MessageModel::about(key, "error"@, error),
        }
    }
}

/// A failure in words, with the failure of undoing it behind.
pub open spec fn rollback_text(primary: Seq<char>, rollback: Option<Seq<char>>) -> Seq<char> {
    match rollback {
        Some(text) => primary + "; rollback failed: "@ + text,
        None => primary,
    }
}

pub fn with_rollback_error(primary: String, rollback: Option<String>) -> (r: String)
    ensures
        r@ == rollback_text(primary@, crate::text::optional_text(rollback)),
{
    match rollback {
        Some(rollback) => {
            let mut out = primary;
            out.append("; rollback failed: ");
            out.append(rollback.as_str());
            out
        },
        None => primary,
    }
}

impl Message {
    pub fn text(key: &'static str) -> (r: Self)
        ensures
            r@ == MessageModel::text(key@),
    {
        let r = Message::Keyed { key, fills: Vec::new() };
        assert(r@ =~= MessageModel::text(key@));
        r
    }

    pub fn about(key: &'static str, name: &'static str, value: String) -> (r: Self)
        ensures
            r@ == MessageModel::about(key@, name@, value@),
    {
        let mut fills: Vec<Fill> = Vec::new();
        fills.push(Fill { name, value });
        let r = Message::Keyed { key, fills };
        assert(fill_texts(fills@) =~= seq![(name@, value@)]);
        r
    }

    pub fn about_both(
        key: &'static str,
        name: &'static str,
        value: String,
        other_name: &'static str,
        other_value: String,
    ) -> (r: Self)
        ensures
            r@ == MessageModel::about_both(key@, name@, value@, other_name@, other_value@),
    {
        let mut fills: Vec<Fill> = Vec::new();
        fills.push(Fill { name, value });
        fills.push(Fill { name: other_name, value: other_value });
        let r = Message::Keyed { key, fills };
        assert(fill_texts(fills@) =~= seq![(name@, value@), (other_name@, other_value@)]);
        r
    }

    pub fn failed(key: &'static str, error: String, rollback: Option<String>) -> (r: Self)
        ensures
            r@ == MessageModel::failed(key@, error@, crate::text::optional_text(rollback)),
    {
        match rollback {
            Some(rollback) => {
                let mut fills: Vec<Fill> = Vec::new();
                fills.push(Fill { name: "error", value: error });
                let r = Message::RolledBack { key, fills, rollback };
                assert(fill_texts(fills@) =~= seq![("error"@, error@)]);
                r
            },
            None => Message::about(key, "error", error),
        }
    }

    /// The catalog has the text that the message needs.
    pub open spec fn is_known(self, catalog: Catalog) -> bool {
        match self {
            Message::Plain(_) => true,
            Message::Keyed { key, .. } => has_key(catalog.strings@, key@),
            Message::RolledBack { key, .. } => has_key(catalog.strings@, key@),
        }
    }

    /// The message in the language of the catalog.
    pub fn render(&self, catalog: &Catalog) -> (r: String)
        requires
            self.is_known(*catalog),
        ensures
            r@ == match *self {
                Message::Plain(text) => text@,
                Message::Keyed { key, fills } => filled(text_of(catalog.strings@, key@), fills@),
                Message::RolledBack { key, fills, rollback } => rollback_text(
                    filled(text_of(catalog.strings@, key@), fills@),
                    Some(rollback@),
                ),
            },
    {
        match self {
            Message::Plain(text) => text.clone(),
            Message::Keyed { key, fills } => catalog.format(key, fills),
            Message::RolledBack { key, fills, rollback } => with_rollback_error(
                catalog.format(key, fills),
                Some(rollback.clone()),
            ),
        }
    }
}

/// What the status line says and how serious it is.
#[derive(Debug)]
pub struct Status {
    pub kind: StatusKind,
    pub message: Message,
}

#[verifier::ext_equal]
pub struct StatusModel {
    pub kind: StatusKind,
    pub message: MessageModel,
}

impl View for Status {
    type V = StatusModel;

    open spec fn view(&self) -> StatusModel {
        StatusModel { kind: self.kind, message: self.message@ }
    }
}

impl StatusModel {
    pub open spec fn key(key: Seq<char>) -> StatusModel {
        StatusModel { kind: kind_of_key(key), message: MessageModel::text(key) }
    }

    pub open spec fn format(key: Seq<char>, name: Seq<char>, value: Seq<char>) -> StatusModel {
        StatusModel { kind: kind_of_key(key), message: MessageModel::about(key, name, value) }
    }

    pub open spec fn error(message: MessageModel) -> StatusModel {
        StatusModel { kind: StatusKind::Error, message }
    }
}

impl Status {
    /// A text of the catalog, as serious as its key says.
    pub fn key(key: &'static str) -> (r: Self)
        ensures
            r@ == StatusModel::key(key@),
    {
        Status { kind: status_kind_for_key(key), message: Message::text(key) }
    }

    /// A text of the catalog with one placeholder, as serious as its key says.
    pub fn format(key: &'static str, name: &'static str, value: String) -> (r: Self)
        ensures
            r@ == StatusModel::format(key@, name@, value@),
    {
        Status { kind: status_kind_for_key(key), message: Message::about(key, name, value) }
    }

    pub fn error(message: Message) -> (r: Self)
        ensures
            r@ == StatusModel::error(message@),
    {
        Status { kind: StatusKind::Error, message }
    }
}

/// A message keeps its key and the values for its placeholders, each under its name and in order.
pub proof fn messages_keep_their_values(
    key: Seq<char>,
    name: Seq<char>,
    value: Seq<char>,
    other: Seq<char>,
    second: Seq<char>,
)
    ensures
        MessageModel::text(key) == MessageModel::Keyed(key, Seq::empty()),
        MessageModel::about(key, name, value) == MessageModel::Keyed(key, seq![(name, value)]),
        MessageModel::about_both(key, name, value, other, second) == MessageModel::Keyed(
            key,
            seq![(name, value), (other, second)],
        ),
        MessageModel::failed(key, value, None) == MessageModel::Keyed(
            key,
            seq![("error"@, value)],
        ),
        MessageModel::failed(key, value, Some(second)) == MessageModel::RolledBack(
            key,
            seq![("error"@, value)],
            second,
        ),
        StatusModel::key(key).message == MessageModel::Keyed(key, Seq::empty()),
        StatusModel::format(key, name, value).message == MessageModel::Keyed(
            key,
            seq![(name, value)],
        ),
        StatusModel::format(key, name, value).kind == kind_of_key(key),
{
}

/// A failure that could not be undone says both what failed.
pub proof fn both_failures_are_told(primary: Seq<char>, rollback: Seq<char>)
    ensures
        rollback_text(primary, None) == primary,
        primary.is_prefix_of(rollback_text(primary, Some(rollback))),
        rollback.is_suffix_of(rollback_text(primary, Some(rollback))),
{
    let text = rollback_text(primary, Some(rollback));
    assert(text.take(primary.len() as int) =~= primary);
    assert(text.skip(text.len() - rollback.len()) =~= rollback);
}

} // verus!
