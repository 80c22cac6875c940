//! The record that is kept of one message.

use vstd::prelude::*;
use crate::parser::{message_rolls, parse_roll};
use crate::roll::{DiceRollInstanceView, DiceRollRequest};

verus! {

/// Why no record can be made of a message.
#[derive(Clone, Copy, Debug, PartialEq, Eq)]
pub enum RecordError {
    /// The message does not say who asked for it.
    MissingInteraction,
}

/// The model of a [`MessageRecord`].
pub struct MessageRecordView<T> {
    pub message_id: u64,
    pub author_user_id: u64,
    pub raw_content: Seq<char>,
    pub timestamp: T,
    pub parsed: Option<Seq<DiceRollInstanceView>>,
}

/// One message as it is kept: where it came from, its text, and the rolls
/// that were read out of the text, once that has been done. The library
/// reads the text and fills in the rolls; the other fields it hands on as
/// they are, whatever the time stamp is made of.
#[derive(Clone, Debug, PartialEq, Eq)]
pub struct MessageRecord<T> {
    /// The number of the message.
    pub message_id: u64,
    /// The user who asked for the roll: not the author of the message, who
    /// is the one that rolled the dice for them.
    pub author_user_id: u64,
    /// The text of the message, untouched.
    pub raw_content: String,
    /// When the message was written.
    pub timestamp: T,
    /// The rolls that the text shows, if it has been read and shows any.
    pub parsed: Option<DiceRollRequest>,
}

impl<T> View for MessageRecord<T> {
    type V = MessageRecordView<T>;

    open spec fn view(&self) -> MessageRecordView<T> {
        MessageRecordView {
            message_id: self.message_id,
            author_user_id: self.author_user_id,
            raw_content: self.raw_content@,
            timestamp: self.timestamp,
            parsed: match self.parsed {
                Some(request) => Some(request@),
                None => None,
            },
        }
    }
}

impl<T> MessageRecordView<T> {
    /// The record with its text read: the rolls are those of the text, or
    /// none, and every other field is as it was.
    pub open spec fn cleaned(self) -> MessageRecordView<T> {
        MessageRecordView { parsed: message_rolls(self.raw_content), ..self }
    }
}

impl<T> MessageRecord<T> {
    /// Makes the record of a message whose text has not been read yet.
    /// `asked_by` is the user on whose request the message was written; a
    /// message that names none gets no record.
    pub fn new(message_id: u64, asked_by: Option<u64>, raw_content: String, timestamp: T) -> (r:
        Result<Self, RecordError>)
        ensures
            match asked_by {
                Some(user) => r matches Ok(record) && record@ == (MessageRecordView {
                    message_id,
                    author_user_id: user,
                    raw_content: raw_content@,
                    timestamp,
                    parsed: None,
                }),
                None => r == Err::<Self, RecordError>(RecordError::MissingInteraction),
            },
    {
        match asked_by {
            Some(user) => Ok(
                MessageRecord {
                    message_id,
                    author_user_id: user,
                    raw_content,
                    timestamp,
                    parsed: None,
                },
            ),
            None => Err(RecordError::MissingInteraction),
        }
    }

    /// Reads the text of the record and keeps what it shows. Rolls that were
    /// kept before are replaced.
    pub fn clean(self) -> (r: Self)
        ensures
            r@ == self@.cleaned(),
    {
        let parsed = parse_roll(self.raw_content.clone());
        MessageRecord {
            message_id: self.message_id,
            author_user_id: self.author_user_id,
            raw_content: self.raw_content,
            timestamp: self.timestamp,
            parsed,
        }
    }
}

/// Reads the text of every record. The records stay in their order, and one
/// whose text shows no rolls stays too, without rolls.
pub fn clean_all<T>(records: Vec<MessageRecord<T>>) -> (r: Vec<MessageRecord<T>>)
    ensures
        r@.len() == records@.len(),
        forall|i: int| 0 <= i < records@.len() ==> (#[trigger] r@[i])@ == records@[i]@.cleaned(),
{
    let ghost before = records@;
    let mut rest = records;
    let mut turned: Vec<MessageRecord<T>> = Vec::new();
    while rest.len() > 0
        invariant
            rest@.len() + turned@.len() == before.len(),
            forall|i: int| 0 <= i < rest@.len() ==> rest@[i] == before[i],
            forall|i: int|
                0 <= i < turned@.len() ==> (#[trigger] turned@[i])@ == before[before.len() - 1
                    - i]@.cleaned(),
        decreases rest@.len(),
    {
        match rest.pop() {
            Some(record) => {
                turned.push(record.clean());
            },
            None => {},
        }
    }
    let mut cleaned: Vec<MessageRecord<T>> = Vec::new();
    while turned.len() > 0
        invariant
            cleaned@.len() + turned@.len() == before.len(),
            forall|i: int|
                0 <= i < turned@.len() ==> (#[trigger] turned@[i])@ == before[before.len() - 1
                    - i]@.cleaned(),
            forall|i: int| 0 <= i < cleaned@.len() ==> (#[trigger] cleaned@[i])@ == before[i]@.cleaned(),
        decreases turned@.len(),
    {
        match turned.pop() {
            Some(record) => {
                cleaned.push(record);
            },
            None => {},
        }
    }
    cleaned
}

} // verus!
