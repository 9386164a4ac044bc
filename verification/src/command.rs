//! What a client makes of a line that its user typed: a command to quit, a
//! file or an image to send, or a line of text.

use crate::error::ChatError;
use crate::message::{MessageType, MessageView};
use crate::text::{chars_of, starts_with};
use vstd::prelude::*;

verus! {

/// The place of the first space in `line`, or the length of `line` where it
/// holds none.
pub open spec fn first_space(line: Seq<char>) -> int
    decreases line.len(),
{
    if line.len() == 0 || line[0] == ' ' {
        0
    } else {
        1 + first_space(line.drop_first())
    }
}

/// The argument of a command line: all that follows its first space. A line
/// without a space has none.
pub open spec fn argument_of(line: Seq<char>) -> Option<Seq<char>> {
    if first_space(line) < line.len() {
        Some(line.subrange(first_space(line) + 1, line.len() as int))
    } else {
        None
    }
}

/// What stands in `path` behind its last slash.
pub open spec fn last_segment(path: Seq<char>) -> Seq<char>
    decreases path.len(),
{
    if path.len() == 0 || path.last() == '/' {
        Seq::empty()
    } else {
        last_segment(path.drop_last()).push(path.last())
    }
}

/// The segment that names the directory it stands in.
pub open spec fn dot() -> Seq<char> {
    seq!['.']
}

/// The segment that names the directory above.
pub open spec fn dot_dot() -> Seq<char> {
    seq!['.', '.']
}

/// The name of the file that `path` leads to: its last segment, where slashes
/// and single dots at the end are passed over. There is none where nothing is
/// left then, and none where the segment is two dots.
pub open spec fn file_name_of(path: Seq<char>) -> Option<Seq<char>>
    decreases path.len(),
{
    if path.len() == 0 {
        None
    } else if path.last() == '/' || last_segment(path) == dot() {
        file_name_of(path.drop_last())
    } else if last_segment(path) == dot_dot() {
        None
    } else {
        Some(last_segment(path))
    }
}

/// Whether `line` is the command `keyword`: the keyword alone, or the keyword,
/// a space and an argument.
pub open spec fn is_command(line: Seq<char>, keyword: Seq<char>) -> bool {
    keyword.is_prefix_of(line) && (line.len() == keyword.len() || line[keyword.len() as int]
        == ' ')
}

/// What a line asks for, as mathematical values.
pub enum OutgoingView {
    Quit,
    Text(Seq<char>),
    Image { path: Seq<char> },
    File { path: Seq<char>, name: Seq<char> },
}

/// What a line typed by the user asks for.
#[derive(Debug, Clone, PartialEq, Eq)]
pub enum Outgoing {
    /// Leave the chat; nothing is sent.
    Quit,
    /// Send the line as it stands.
    Text(String),
    /// Send the contents of the file at `path` as an image.
    Image { path: String },
    /// Send the contents of the file at `path` under the name `name`.
    File { path: String, name: String },
}

impl View for Outgoing {
    type V = OutgoingView;

    open spec fn view(&self) -> OutgoingView {
        match self {
            Outgoing::Quit => OutgoingView::Quit,
            Outgoing::Text(body) => OutgoingView::Text(body@),
            Outgoing::Image { path } => OutgoingView::Image { path: path@ },
            Outgoing::File { path, name } => OutgoingView::File { path: path@, name: name@ },
        }
    }
}

/// The path that a file or image command names: its argument, which has to
/// lead to a file name.
pub open spec fn usable_path(line: Seq<char>) -> Option<Seq<char>> {
    match argument_of(line) {
        Some(path) => if file_name_of(path) is Some {
            Some(path)
        } else {
            None
        },
        None => None,
    }
}

/// What a line asks for. The commands are looked for first; any other line is
/// text, taken as it stands.
pub open spec fn classify(line: Seq<char>) -> Result<OutgoingView, ChatError> {
    if line == ".quit"@ {
        Ok(OutgoingView::Quit)
    } else if is_command(line, ".file"@) {
        match usable_path(line) {
            Some(path) => Ok(OutgoingView::File { path, name: file_name_of(path)->Some_0 }),
            None => Err(ChatError::InvalidPath),
        }
    } else if is_command(line, ".image"@) {
        match usable_path(line) {
            Some(path) => Ok(OutgoingView::Image { path }),
            None => Err(ChatError::InvalidPath),
        }
    } else {
        Ok(OutgoingView::Text(line))
    }
}

/// The message that is sent for what a line asked, once the file that it names
/// has been read. Nothing is sent for a command to quit.
pub open spec fn message_for(outgoing: OutgoingView, content: Seq<u8>) -> Option<MessageView> {
    match outgoing {
        OutgoingView::Quit => None,
        OutgoingView::Text(body) => Some(MessageView::Text(body)),
        OutgoingView::Image { path } => Some(MessageView::Image(content)),
        OutgoingView::File { path, name } => Some(MessageView::File { name, content }),
    }
}

/// Whether `chars` is the command `keyword`.
fn is_command_line(chars: &Vec<char>, keyword: &str) -> (found: bool)
    ensures
        found <==> is_command(chars@, keyword@),
{
    let keyword_chars = chars_of(keyword);
    starts_with(chars, &keyword_chars) && (chars.len() == keyword_chars.len()
        || chars[keyword_chars.len()] == ' ')
}

impl MessageType {
    /// The argument of a command line: all that follows its first space. A
    /// line without a space names no path.
    pub fn extract_path(command: &String) -> (path: Result<String, ChatError>)
        ensures
            match argument_of(command@) {
                Some(argument) => path is Ok && path->Ok_0@ == argument,
                None => path == Err::<String, ChatError>(ChatError::InvalidPath),
            },
    {
        let chars = chars_of(command.as_str());
        let mut at: usize = 0;
        while at < chars.len() && chars[at] != ' '
            invariant
                at <= chars.len(),
                forall|i: int| 0 <= i < at ==> chars[i] != ' ',
            decreases chars.len() - at,
        {
            at = at + 1;
        }
        proof {
            lemma_first_space_found(chars@, at as int);
        }
        if at < chars.len() {
            Ok(command.as_str().substring_char(at + 1, chars.len()).to_owned())
        } else {
            Err(ChatError::InvalidPath)
        }
    }

    /// The name of the file that `path` leads to, if it leads to one.
    pub fn extract_file_name<'a>(path: &'a String) -> (name: Option<&'a str>)
        ensures
            match file_name_of(path@) {
                Some(expected) => name is Some && name->Some_0@ == expected,
                None => name is None,
            },
    {
        let chars = chars_of(path.as_str());
        let mut end: usize = chars.len();
        assert(chars@.subrange(0, end as int) =~= path@);
        while end > 0
            invariant
                end <= chars.len(),
                chars@ == path@,
                file_name_of(path@) == file_name_of(chars@.subrange(0, end as int)),
            decreases end,
        {
            let ghost upto = chars@.subrange(0, end as int);
            assert(upto.drop_last() =~= chars@.subrange(0, end - 1));
            if chars[end - 1] == '/' {
                end = end - 1;
            } else {
                let mut start: usize = end;
                while start > 0 && chars[start - 1] != '/'
                    invariant
                        start <= end <= chars.len(),
                        forall|i: int| start <= i < end ==> chars[i] != '/',
                    decreases start,
                {
                    start = start - 1;
                }
                proof {
                    lemma_last_segment_extends(upto, start as int);
                    assert(upto.subrange(start as int, end as int) =~= chars@.subrange(
                        start as int,
                        end as int,
                    ));
                    if start > 0 {
                        assert(upto.subrange(0, start as int).last() == '/');
                    }
                    assert(last_segment(upto.subrange(0, start as int)) =~= Seq::<char>::empty());
                    assert(last_segment(upto) =~= chars@.subrange(start as int, end as int));
                }
                if end - start == 1 && chars[start] == '.' {
                    assert(last_segment(upto) =~= dot());
                    end = end - 1;
                } else if end - start == 2 && chars[start] == '.' && chars[start + 1] == '.' {
                    assert(last_segment(upto) =~= dot_dot());
                    return None;
                } else {
                    assert(last_segment(upto) != dot()) by {
                        if last_segment(upto) == dot() {
                            assert(last_segment(upto).len() == 1);
                            assert(last_segment(upto)[0] == '.');
                        }
                    }
                    assert(last_segment(upto) != dot_dot()) by {
                        if last_segment(upto) == dot_dot() {
                            assert(last_segment(upto).len() == 2);
                            assert(last_segment(upto)[0] == '.');
                            assert(last_segment(upto)[1] == '.');
                        }
                    }
                    return Some(path.as_str().substring_char(start, end));
                }
            }
        }
        assert(chars@.subrange(0, 0) =~= Seq::<char>::empty());
        None
    }

    /// Tells what a line typed by the user asks for. `.quit` asks to leave. A
    /// line that is `.file` or `.image`, alone or with a space and an argument
    /// behind it, asks to send the file that the argument names, and is refused
    /// where the argument is missing or leads to no file name. Any other line
    /// is text, taken as it stands.
    pub fn determine_outgoing_message(msg: &String) -> (outgoing: Result<Outgoing, ChatError>)
        ensures
            match classify(msg@) {
                Ok(expected) => outgoing is Ok && outgoing->Ok_0@ == expected,
                Err(error) => outgoing == Err::<Outgoing, ChatError>(error),
            },
    {
        let chars = chars_of(msg.as_str());
        let quit = chars_of(".quit");
        if chars.len() == quit.len() && starts_with(&chars, &quit) {
            assert(chars@ =~= quit@);
            return Ok(Outgoing::Quit);
        }
        assert(msg@ != ".quit"@) by {
            if msg@ == ".quit"@ {
                assert(quit@.is_prefix_of(chars@));
            }
        }
        if is_command_line(&chars, ".file") {
            match MessageType::extract_path(msg) {
                Ok(path) => {
                    let name = match MessageType::extract_file_name(&path) {
                        Some(name) => name.to_owned(),
                        None => {
                            return Err(ChatError::InvalidPath);
                        },
                    };
                    Ok(Outgoing::File { path, name })
                },
                Err(error) => Err(error),
            }
        } else if is_command_line(&chars, ".image") {
            match MessageType::extract_path(msg) {
                Ok(path) => {
                    if MessageType::extract_file_name(&path).is_none() {
                        return Err(ChatError::InvalidPath);
                    }
                    Ok(Outgoing::Image { path })
                },
                Err(error) => Err(error),
            }
        } else {
            Ok(Outgoing::Text(msg.clone()))
        }
    }
}

impl Outgoing {
    /// The message to send for what the line asked, where `content` is what
    /// was read from the file that it names. A line of text goes out as it is,
    /// whatever `content` holds; a command to quit sends nothing.
    pub fn into_message(self, content: Vec<u8>) -> (message: Option<MessageType>)
        ensures
            match message_for(self@, content@) {
                Some(expected) => message is Some && message->Some_0@ == expected,
                None => message is None,
            },
    {
        match self {
            Outgoing::Quit => None,
            Outgoing::Text(body) => Some(MessageType::Text(body)),
            Outgoing::Image { path } => Some(MessageType::Image(content)),
            Outgoing::File { path, name } => Some(MessageType::File { name, content }),
        }
    }
}

/// The first space stands where no space stands before it.
proof fn lemma_first_space_found(line: Seq<char>, at: int)
    requires
        0 <= at <= line.len(),
        forall|i: int| 0 <= i < at ==> line[i] != ' ',
        at == line.len() || line[at] == ' ',
    ensures
        first_space(line) == at,
    decreases at,
{
    if at > 0 {
        lemma_first_space_found(line.drop_first(), at - 1);
    }
}

/// The last segment of a path that has no slash from `start` on is the last
/// segment of its part before `start`, and then all from `start` on.
proof fn lemma_last_segment_extends(path: Seq<char>, start: int)
    requires
        0 <= start <= path.len(),
        forall|i: int| start <= i < path.len() ==> path[i] != '/',
    ensures
        last_segment(path) == last_segment(path.subrange(0, start)) + path.subrange(
            start,
            path.len() as int,
        ),
    decreases path.len() - start,
{
    if start == path.len() {
        assert(path.subrange(0, start) =~= path);
        assert(last_segment(path) + path.subrange(start, path.len() as int) =~= last_segment(
            path,
        ));
    } else {
        let shorter = path.drop_last();
        lemma_last_segment_extends(shorter, start);
        assert(shorter.subrange(0, start) =~= path.subrange(0, start));
        assert(shorter.subrange(start, shorter.len() as int).push(path.last()) =~= path.subrange(
            start,
            path.len() as int,
        ));
        assert(last_segment(path) =~= last_segment(path.subrange(0, start)) + path.subrange(
            start,
            path.len() as int,
        ));
    }
}

/// A file name is plain: it is not empty, holds no slash, and is neither one
/// dot nor two. So it names an entry of the directory it is put in, and no
/// place outside.
pub proof fn lemma_file_name_is_plain(path: Seq<char>)
    ensures
        file_name_of(path) matches Some(name) ==> {
            &&& name.len() > 0
            &&& forall|i: int| 0 <= i < name.len() ==> name[i] != '/'
            &&& name != dot()
            &&& name != dot_dot()
        },
    decreases path.len(),
{
    if path.len() > 0 {
        if path.last() == '/' || last_segment(path) == dot() {
            lemma_file_name_is_plain(path.drop_last());
        } else {
            lemma_last_segment_has_no_slash(path);
        }
    }
}

/// The last segment holds no slash, and is empty only where the path is empty
/// or ends in a slash.
proof fn lemma_last_segment_has_no_slash(path: Seq<char>)
    ensures
        forall|i: int| 0 <= i < last_segment(path).len() ==> last_segment(path)[i] != '/',
        path.len() > 0 && path.last() != '/' ==> last_segment(path).len() > 0,
    decreases path.len(),
{
    if path.len() > 0 && path.last() != '/' {
        let before = last_segment(path.drop_last());
        lemma_last_segment_has_no_slash(path.drop_last());
        assert forall|i: int| 0 <= i < last_segment(path).len() implies last_segment(path)[i]
            != '/' by {
            if i < before.len() {
                assert(last_segment(path)[i] == before[i]);
            }
        }
    }
}

/// A plain name is its own file name.
pub proof fn lemma_file_name_of_plain_name(name: Seq<char>)
    requires
        name.len() > 0,
        forall|i: int| 0 <= i < name.len() ==> name[i] != '/',
        name != dot(),
        name != dot_dot(),
    ensures
        file_name_of(name) == Some(name),
{
    lemma_last_segment_extends(name, 0);
    assert(name.subrange(0, 0) =~= Seq::<char>::empty());
    assert(name.subrange(0, name.len() as int) =~= name);
    assert(last_segment(name) =~= name);
}

} // verus!
