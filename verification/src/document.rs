//! Virtual documents: the handlers that fetch them, by the scheme of their
//! URI, and the names under which they are shown.

use vstd::prelude::*;
use vstd::string::*;
use crate::text::{append_chars, chars_of, copy_range, is_word, string_of};

verus! {

/// How the documents of one scheme are fetched from a language server.
#[derive(Debug, PartialEq, Eq)]
pub struct VirtualDocumentConfig {
    /// The scheme of the URIs that the handler takes, such as `jdt`.
    pub scheme: String,
    /// The method of the request that fetches a document's content.
    pub content_request_method: String,
    /// The name of the documents' language.
    pub language_name: String,
    /// The identifier of the documents' language.
    pub language_id: String,
}

/// Why a handler could not be registered.
#[derive(Debug, PartialEq, Eq)]
pub enum RegisterError {
    /// The scheme belongs to the system.
    ReservedScheme { scheme: String },
}

/// Whether a scheme belongs to the system, so that no handler can take it.
pub open spec fn is_reserved(scheme: Seq<char>) -> bool {
    scheme == "file"@ || scheme == "http"@ || scheme == "https"@ || scheme == "ssh"@ || scheme
        == "untitled"@
}

/// The message of a `RegisterError` for `scheme`.
pub open spec fn reserved_text(scheme: Seq<char>) -> Seq<char> {
    "cannot register virtual document handler for reserved scheme: "@ + scheme
}

impl RegisterError {
    /// The message of the error.
    pub fn message(&self) -> (out: String)
        ensures
            match self {
                RegisterError::ReservedScheme { scheme } => out@ == reserved_text(scheme@),
            },
    {
        match self {
            RegisterError::ReservedScheme { scheme } => {
                let mut out = String::from_str(
                    "cannot register virtual document handler for reserved scheme: ",
                );
                out.append(scheme.as_str());
                out
            },
        }
    }
}

impl VirtualDocumentConfig {
    /// A handler for `scheme`.
    pub fn new(scheme: &str, content_request_method: &str, language_name: &str, language_id: &str) -> (out:
        Self)
        ensures
            out.scheme@ == scheme@,
            out.content_request_method@ == content_request_method@,
            out.language_name@ == language_name@,
            out.language_id@ == language_id@,
    {
        VirtualDocumentConfig {
            scheme: String::from_str(scheme),
            content_request_method: String::from_str(content_request_method),
            language_name: String::from_str(language_name),
            language_id: String::from_str(language_id),
        }
    }
}

/// The index of the first handler for `scheme` among those from `i` on.
pub open spec fn handler_from(handlers: Seq<VirtualDocumentConfig>, scheme: Seq<char>, i: int) -> Option<
    int,
>
    decreases handlers.len() - i,
{
    if i < 0 || i >= handlers.len() {
        None
    } else if handlers[i].scheme@ == scheme {
        Some(i)
    } else {
        handler_from(handlers, scheme, i + 1)
    }
}

/// The index of the handler for `scheme` among `handlers`, if there is one.
pub open spec fn handler_index(handlers: Seq<VirtualDocumentConfig>, scheme: Seq<char>) -> Option<
    int,
> {
    handler_from(handlers, scheme, 0)
}

/// A scheme without handler is the scheme of no handler, and a handler that
/// is found has the scheme.
pub proof fn lemma_handler_from(handlers: Seq<VirtualDocumentConfig>, scheme: Seq<char>, i: int)
    requires
        0 <= i <= handlers.len(),
    ensures
        match handler_from(handlers, scheme, i) {
            Some(k) => i <= k < handlers.len() && handlers[k].scheme@ == scheme,
            None => forall|k: int| i <= k < handlers.len() ==> (#[trigger] handlers[k]).scheme@ != scheme,
        },
    decreases handlers.len() - i,
{
    if i < handlers.len() && handlers[i].scheme@ != scheme {
        lemma_handler_from(handlers, scheme, i + 1);
    }
}

/// The handlers of virtual documents, one for a scheme at most.
pub struct VirtualDocumentStore {
    handlers: Vec<VirtualDocumentConfig>,
}

impl View for VirtualDocumentStore {
    type V = Seq<VirtualDocumentConfig>;

    closed spec fn view(&self) -> Seq<VirtualDocumentConfig> {
        self.handlers@
    }
}

impl VirtualDocumentStore {
    /// Whether no two handlers have the same scheme, and none a reserved one.
    /// It holds of a new store, and registering keeps it.
    pub open spec fn wf(&self) -> bool {
        &&& forall|i: int, j: int|
            0 <= i < j < self@.len() ==> (#[trigger] self@[i]).scheme@ != (#[trigger] self@[j]).scheme@
        &&& forall|i: int| 0 <= i < self@.len() ==> !is_reserved((#[trigger] self@[i]).scheme@)
    }

    /// A store without handlers.
    pub fn new() -> (out: Self)
        ensures
            out.wf(),
            out@.len() == 0,
    {
        VirtualDocumentStore { handlers: Vec::new() }
    }

    fn find(&self, scheme: &String) -> (out: Option<usize>)
        ensures
            match out {
                Some(i) => i < self@.len() && handler_index(self@, scheme@) == Some(i as int),
                None => handler_index(self@, scheme@) is None,
            },
    {
        let mut i: usize = 0;
        while i < self.handlers.len()
            invariant
                i <= self.handlers.len(),
                handler_from(self@, scheme@, i as int) == handler_index(self@, scheme@),
            decreases self.handlers.len() - i,
        {
            if self.handlers[i].scheme == *scheme {
                return Some(i);
            }
            i += 1;
        }
        None
    }

    /// Registers a handler for its scheme, in place of the handler that the
    /// scheme had, if it had one. A reserved scheme is refused, and the store
    /// stays as it is.
    pub fn register_handler(&mut self, config: VirtualDocumentConfig) -> (out: Result<
        (),
        RegisterError,
    >)
        ensures
            old(self).wf() ==> final(self).wf(),
            is_reserved(config.scheme@) ==> final(self)@ == old(self)@ && (out matches Err(
                RegisterError::ReservedScheme { scheme },
            ) && scheme@ == config.scheme@),
            !is_reserved(config.scheme@) ==> out is Ok && match handler_index(
                old(self)@,
                config.scheme@,
            ) {
                Some(i) => final(self)@ == old(self)@.update(i, config),
                None => final(self)@ == old(self)@.push(config),
            },
    {
        if is_word(&config.scheme, "file") || is_word(&config.scheme, "http") || is_word(
            &config.scheme,
            "https",
        ) || is_word(&config.scheme, "ssh") || is_word(&config.scheme, "untitled") {
            return Err(RegisterError::ReservedScheme { scheme: config.scheme });
        }
        match self.find(&config.scheme) {
            Some(i) => {
                proof {
                    lemma_handler_from(self@, config.scheme@, 0);
                }
                self.handlers.set(i, config);
            },
            None => {
                proof {
                    lemma_handler_from(self@, config.scheme@, 0);
                }
                self.handlers.push(config);
            },
        }
        Ok(())
    }

    /// The handler that is registered for `scheme`.
    pub fn handler_for_scheme(&self, scheme: &str) -> (out: Option<&VirtualDocumentConfig>)
        ensures
            match handler_index(self@, scheme@) {
                Some(i) => out == Some(&self@[i]),
                None => out is None,
            },
    {
        let wanted = String::from_str(scheme);
        match self.find(&wanted) {
            Some(i) => Some(&self.handlers[i]),
            None => None,
        }
    }

    /// What is asked of the language server for a document of `scheme`: the
    /// request method of the scheme's handler. Nothing is asked where the
    /// scheme has no handler.
    pub fn process_uri(&self, scheme: &str) -> (out: Option<String>)
        ensures
            match handler_index(self@, scheme@) {
                Some(i) => out matches Some(method) && method@
                    == self@[i].content_request_method@,
                None => out is None,
            },
    {
        match self.handler_for_scheme(scheme) {
            Some(handler) => Some(handler.content_request_method.clone()),
            None => None,
        }
    }

    /// The handlers, in the order in which their schemes were first
    /// registered.
    pub fn handlers(&self) -> (out: &Vec<VirtualDocumentConfig>)
        ensures
            out@ == self@,
    {
        &self.handlers
    }
}

/// The index of the first `c` in `text` from `i` on, or the length of `text`.
pub open spec fn first_index(text: Seq<char>, c: char, i: int) -> int
    decreases text.len() - i,
{
    if i < 0 || i >= text.len() {
        text.len() as int
    } else if text[i] == c {
        i
    } else {
        first_index(text, c, i + 1)
    }
}

/// The index behind the last `c` among the first `i` characters of `text`,
/// or zero.
pub open spec fn index_behind_last(text: Seq<char>, c: char, i: int) -> int
    decreases i,
{
    if i <= 0 || i > text.len() {
        0
    } else if text[i - 1] == c {
        i
    } else {
        index_behind_last(text, c, i - 1)
    }
}

/// The last segment of a URI's path: what stands behind the last slash and
/// before the query.
pub open spec fn last_segment(uri: Seq<char>) -> Seq<char> {
    let path = uri.take(first_index(uri, '?', 0));
    path.skip(index_behind_last(path, '/', path.len() as int))
}

/// The ending of the name of a class file.
pub open spec fn class_ending() -> Seq<char> {
    seq!['.', 'c', 'l', 'a', 's', 's']
}

/// Whether `text` ends with `ending`.
pub open spec fn ends_with(text: Seq<char>, ending: Seq<char>) -> bool {
    text.len() >= ending.len() && text.skip(text.len() - ending.len()) == ending
}

/// `text` without the class endings at its end, however many.
pub open spec fn without_class_endings(text: Seq<char>) -> Seq<char>
    decreases text.len(),
{
    if ends_with(text, class_ending()) {
        without_class_endings(text.take(text.len() - 6))
    } else {
        text
    }
}

/// The name under which the document of `uri` is shown. A class file is
/// shown as its source file; a segment that looks like a file name is shown
/// as it is, and so is a short one without a dot; a long one is cut down to
/// its last twenty characters behind the scheme; an empty one gives the
/// scheme alone.
pub open spec fn display_name_text(uri: Seq<char>, scheme: Seq<char>) -> Seq<char> {
    let segment = last_segment(uri);
    if ends_with(segment, class_ending()) {
        without_class_endings(segment) + seq!['.', 'j', 'a', 'v', 'a']
    } else if segment.contains('.') && segment[0] != '.' {
        segment
    } else if segment.len() > 30 {
        seq!['['] + scheme + seq![']', ' ', '.', '.', '.'] + segment.skip(segment.len() - 20)
    } else if segment.len() == 0 {
        seq!['['] + scheme + seq![']']
    } else {
        segment
    }
}

fn has_class_ending(text: &Vec<char>, len: usize) -> (out: bool)
    requires
        len <= text.len(),
    ensures
        out == ends_with(text@.take(len as int), class_ending()),
{
    if len < 6 {
        return false;
    }
    let out = text[len - 6] == '.' && text[len - 5] == 'c' && text[len - 4] == 'l' && text[len
        - 3] == 'a' && text[len - 2] == 's' && text[len - 1] == 's';
    proof {
        let tail = text@.take(len as int).skip(len - 6);
        assert(tail.len() == 6);
        if out {
            assert(tail =~= class_ending());
        } else {
            assert(tail[0] == text@[len - 6]);
            assert(tail[1] == text@[len - 5]);
            assert(tail[2] == text@[len - 4]);
            assert(tail[3] == text@[len - 3]);
            assert(tail[4] == text@[len - 2]);
            assert(tail[5] == text@[len - 1]);
        }
    }
    out
}

fn has_dot(text: &Vec<char>) -> (out: bool)
    ensures
        out == text@.contains('.'),
{
    let mut i: usize = 0;
    while i < text.len()
        invariant
            i <= text.len(),
            forall|k: int| 0 <= k < i ==> text@[k] != '.',
        decreases text.len() - i,
    {
        if text[i] == '.' {
            return true;
        }
        i += 1;
    }
    false
}

fn segment_of(uri: &Vec<char>) -> (out: Vec<char>)
    ensures
        out@ == last_segment(uri@),
{
    let mut end: usize = 0;
    while end < uri.len() && uri[end] != '?'
        invariant
            end <= uri.len(),
            first_index(uri@, '?', end as int) == first_index(uri@, '?', 0),
        decreases uri.len() - end,
    {
        end += 1;
    }
    let ghost path = uri@.take(end as int);
    let mut start: usize = end;
    while start > 0 && uri[start - 1] != '/'
        invariant
            start <= end <= uri.len(),
            path == uri@.take(end as int),
            index_behind_last(path, '/', start as int) == index_behind_last(
                path,
                '/',
                path.len() as int,
            ),
        decreases start,
    {
        start -= 1;
    }
    let out = copy_range(uri, start, end);
    proof {
        assert(out@ =~= path.skip(start as int));
    }
    out
}

/// The name under which the document of `uri` is shown, for a handler of
/// `scheme`. A URI is ASCII text.
pub fn display_name_from_uri(uri: &str, scheme: &str) -> (out: String)
    requires
        is_ascii(uri),
    ensures
        out@ == display_name_text(uri@, scheme@),
{
    let chars = chars_of(uri);
    let segment = segment_of(&chars);
    let len: usize = segment.len();
    proof {
        assert(segment@.take(len as int) =~= segment@);
    }
    if has_class_ending(&segment, len) {
        let mut kept: usize = len;
        while has_class_ending(&segment, kept)
            invariant
                kept <= len,
                len == segment.len(),
                without_class_endings(segment@.take(kept as int)) == without_class_endings(
                    segment@,
                ),
            decreases kept,
        {
            proof {
                assert(segment@.take(kept as int).take(kept - 6) =~= segment@.take(kept - 6));
            }
            kept -= 6;
        }
        let mut name = copy_range(&segment, 0, kept);
        let ending: Vec<char> = vec!['.', 'j', 'a', 'v', 'a'];
        append_chars(&mut name, &ending);
        proof {
            assert(segment@.subrange(0, kept as int) =~= segment@.take(kept as int));
            assert(ending@ =~= seq!['.', 'j', 'a', 'v', 'a']);
        }
        return string_of(&name);
    }
    if has_dot(&segment) && segment[0] != '.' {
        return string_of(&segment);
    }
    if len > 30 {
        let mut name: Vec<char> = vec!['['];
        let scheme_chars = chars_of(scheme);
        append_chars(&mut name, &scheme_chars);
        let dots: Vec<char> = vec![']', ' ', '.', '.', '.'];
        append_chars(&mut name, &dots);
        let tail = copy_range(&segment, len - 20, len);
        append_chars(&mut name, &tail);
        proof {
            assert(segment@.subrange(len - 20, len as int) =~= segment@.skip(len - 20));
            assert(name@ =~= seq!['['] + scheme@ + seq![']', ' ', '.', '.', '.'] + segment@.skip(
                len - 20,
            ));
        }
        string_of(&name)
    } else if len == 0 {
        let mut name: Vec<char> = vec!['['];
        let scheme_chars = chars_of(scheme);
        append_chars(&mut name, &scheme_chars);
        name.push(']');
        proof {
            assert(name@ =~= seq!['['] + scheme@ + seq![']']);
        }
        string_of(&name)
    } else {
        string_of(&segment)
    }
}

} // verus!
