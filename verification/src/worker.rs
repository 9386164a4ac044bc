//! What the worker of one client does with what it read from its client:
//! whether it goes on, and where it keeps an image or a file that came in.
//! The receiving side of a client asks the same question of what it read.

use crate::command::{file_name_of, lemma_file_name_is_plain};
use crate::error::ChatError;
use crate::message::{MessageType, MessageView};
use vstd::prelude::*;
use vstd::string::StringExecFns;

verus! {

/// The ten decimal digits.
pub open spec fn digits() -> Seq<char> {
    seq!['0', '1', '2', '3', '4', '5', '6', '7', '8', '9']
}

/// A number written in decimal digits, without zeros in front.
pub open spec fn decimal(n: nat) -> Seq<char>
    decreases n,
{
    if n < 10 {
        seq![digits()[n as int]]
    } else {
        decimal(n / 10).push(digits()[(n % 10) as int])
    }
}

/// The directory that images are kept in.
pub open spec fn image_directory() -> Seq<char> {
    "./images"@
}

/// The directory that files are kept in.
pub open spec fn file_directory() -> Seq<char> {
    "./files"@
}

/// The path under which an image is kept that came in `now` seconds after the
/// start of 1970.
pub open spec fn image_path(now: u64) -> Seq<char> {
    image_directory() + "/"@ + decimal(now as nat) + ".png"@
}

/// The path under which a file of the name `name` is kept: its file name
/// alone, inside the directory for files.
pub open spec fn file_path(name: Seq<char>) -> Option<Seq<char>> {
    match file_name_of(name) {
        Some(base) => Some(file_directory() + "/"@ + base),
        None => None,
    }
}

/// What is to be kept of a message, as mathematical values.
pub enum StorageView {
    Nothing,
    Refused,
    Write { directory: Seq<char>, path: Seq<char> },
}

/// What is to be kept of a message that came in.
#[derive(Debug, Clone, PartialEq, Eq)]
pub enum Storage {
    /// Nothing: the message is text.
    Nothing,
    /// Nothing, because the name of the file leads to no file name.
    Refused,
    /// The bytes of the message, in the file at `path`, which lies directly in
    /// `directory`.
    Write { directory: String, path: String },
}

impl View for Storage {
    type V = StorageView;

    open spec fn view(&self) -> StorageView {
        match self {
            Storage::Nothing => StorageView::Nothing,
            Storage::Refused => StorageView::Refused,
            Storage::Write { directory, path } => StorageView::Write {
                directory: directory@,
                path: path@,
            },
        }
    }
}

/// What is to be kept of `message`, come in at `now`.
pub open spec fn storage_for(message: MessageView, now: u64) -> StorageView {
    match message {
        MessageView::Text(body) => StorageView::Nothing,
        MessageView::Image(bytes) => StorageView::Write {
            directory: image_directory(),
            path: image_path(now),
        },
        MessageView::File { name, content } => match file_path(name) {
            Some(path) => StorageView::Write { directory: file_directory(), path },
            None => StorageView::Refused,
        },
    }
}

/// What the worker does next, as mathematical values.
pub enum WorkerStepView {
    Stop(ChatError),
    Relay { message: MessageView, storage: StorageView },
}

/// What the worker of a client does next.
#[derive(Debug, Clone, PartialEq, Eq)]
pub enum WorkerStep {
    /// Nothing more: reading from the client failed.
    Stop(ChatError),
    /// Keep of the message what `storage` says, then send the message on to
    /// the other clients, whether or not keeping it worked; then read again.
    Relay { message: MessageType, storage: Storage },
}

impl View for WorkerStep {
    type V = WorkerStepView;

    open spec fn view(&self) -> WorkerStepView {
        match self {
            WorkerStep::Stop(error) => WorkerStepView::Stop(*error),
            WorkerStep::Relay { message, storage } => WorkerStepView::Relay {
                message: message@,
                storage: storage@,
            },
        }
    }
}

/// One decimal digit as a string.
fn digit_str(digit: u64) -> (text: &'static str)
    requires
        digit < 10,
    ensures
        text@ == seq![digits()[digit as int]],
{
    proof {
        reveal_strlit("0");
        reveal_strlit("1");
        reveal_strlit("2");
        reveal_strlit("3");
        reveal_strlit("4");
        reveal_strlit("5");
        reveal_strlit("6");
        reveal_strlit("7");
        reveal_strlit("8");
        reveal_strlit("9");
    }
    let text = if digit == 0 {
        "0"
    } else if digit == 1 {
        "1"
    } else if digit == 2 {
        "2"
    } else if digit == 3 {
        "3"
    } else if digit == 4 {
        "4"
    } else if digit == 5 {
        "5"
    } else if digit == 6 {
        "6"
    } else if digit == 7 {
        "7"
    } else if digit == 8 {
        "8"
    } else {
        "9"
    };
    assert(text@ =~= seq![digits()[digit as int]]);
    text
}

/// Writes a number in decimal digits.
pub fn decimal_string(n: u64) -> (text: String)
    ensures
        text@ == decimal(n as nat),
    decreases n,
{
    if n < 10 {
        digit_str(n).to_owned()
    } else {
        let mut text = decimal_string(n / 10);
        text.append(digit_str(n % 10));
        assert(text@ =~= decimal(n as nat));
        text
    }
}

impl MessageType {
    /// The bytes that a message carries besides its text: those of an image or
    /// of a file. A text message carries none.
    pub fn attachment(&self) -> (bytes: Option<&Vec<u8>>)
        ensures
            bytes == match self {
                MessageType::Text(body) => None,
                MessageType::Image(image) => Some(image),
                MessageType::File { name, content } => Some(content),
            },
    {
        match self {
            MessageType::Text(_) => None,
            MessageType::Image(image) => Some(image),
            MessageType::File { content, .. } => Some(content),
        }
    }
}

/// Says what is to be kept of a message that came in at `now`, counted in
/// seconds from the start of 1970. Text is not kept. An image goes to a file
/// named by `now`. A file goes under its file name alone, whatever directories
/// its name holds, and is refused where the name leads to no file name.
pub fn storage_of(message: &MessageType, now: u64) -> (storage: Storage)
    ensures
        storage@ == storage_for(message@, now),
{
    match message {
        MessageType::Text(_) => Storage::Nothing,
        MessageType::Image(_) => {
            let mut path = "./images".to_owned();
            path.append("/");
            let stamp = decimal_string(now);
            path.append(stamp.as_str());
            path.append(".png");
            Storage::Write { directory: "./images".to_owned(), path }
        },
        MessageType::File { name, .. } => {
            match MessageType::extract_file_name(name) {
                Some(base) => {
                    let mut path = "./files".to_owned();
                    path.append("/");
                    path.append(base);
                    Storage::Write { directory: "./files".to_owned(), path }
                },
                None => Storage::Refused,
            }
        },
    }
}

/// Decides what the worker of a client does with what it read. A failed read
/// ends the worker. A message is kept as `storage_of` says and sent on to the
/// other clients.
pub fn handle_client(received: Result<MessageType, ChatError>, now: u64) -> (step: WorkerStep)
    ensures
        step@ == match received {
            Ok(message) => WorkerStepView::Relay {
                message: message@,
                storage: storage_for(message@, now),
            },
            Err(error) => WorkerStepView::Stop(error),
        },
{
    match received {
        Ok(message) => {
            let storage = storage_of(&message, now);
            WorkerStep::Relay { message, storage }
        },
        Err(error) => WorkerStep::Stop(error),
    }
}

/// Tells whether the receiving side of a client reads on after what it read.
/// It stops when the connection has failed or ended. After a payload that
/// could not be decoded it reads on: the frame has been taken off the stream,
/// so the next frame starts where it should.
pub fn receiver_reads_on(received: &Result<MessageType, ChatError>) -> (goes_on: bool)
    ensures
        goes_on <==> !(received matches Err(error) && (error == ChatError::EndOfStream || error
            == ChatError::Io)),
{
    match received {
        Ok(_) => true,
        Err(ChatError::EndOfStream) => false,
        Err(ChatError::Io) => false,
        Err(_) => true,
    }
}

/// A file is kept directly in the directory for files: what stands in its
/// path behind the directory and one slash is not empty, holds no further
/// slash, and is neither one dot nor two.
pub proof fn lemma_file_path_stays_inside(name: Seq<char>)
    ensures
        file_path(name) matches Some(path) ==> exists|base: Seq<char>|
            {
                &&& path == file_directory() + "/"@ + base
                &&& base.len() > 0
                &&& forall|i: int| 0 <= i < base.len() ==> base[i] != '/'
                &&& base != seq!['.']
                &&& base != seq!['.', '.']
            },
{
    lemma_file_name_is_plain(name);
    if file_path(name) is Some {
        let base = file_name_of(name)->Some_0;
        let path = file_path(name)->Some_0;
        assert(path == file_directory() + "/"@ + base);
    }
}

} // verus!
