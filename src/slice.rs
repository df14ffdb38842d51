use vstd::prelude::*;
use vstd::string::StringExecFns;

verus! {

/// Extension appended to a display name to form its storage file name.
pub open spec fn file_extension() -> Seq<char> {
    ".webm"@
}

/// Mathematical view of a [`Slice`].
pub ghost struct SliceView {
    pub filename: Seq<char>,
    pub payload: Seq<u8>,
    pub command: Option<Seq<char>>,
}

/// The unit of queued work: either a data slice (bytes to append to
/// `filename`, no command) or a control slice (a command about `filename`,
/// empty payload).
pub struct Slice {
    pub filename: String,
    pub payload: Vec<u8>,
    pub command: Option<String>,
}

pub open spec fn opt_string_view(o: Option<String>) -> Option<Seq<char>> {
    match o {
        Some(s) => Some(s@),
        None => None,
    }
}

impl View for Slice {
    type V = SliceView;

    open spec fn view(&self) -> SliceView {
        SliceView {
            filename: self.filename@,
            payload: self.payload@,
            command: opt_string_view(self.command),
        }
    }
}

impl SliceView {
    /// A slice carries bytes or a command, never both.
    pub open spec fn wf(self) -> bool {
        self.command is Some ==> self.payload.len() == 0
    }

    pub open spec fn is_data(self) -> bool {
        self.command is None
    }
}

/// Storage file name of the session whose display name is `name`.
pub open spec fn file_name_of(name: Seq<char>) -> Seq<char> {
    name + file_extension()
}

/// Builds `<name><extension>`.
pub fn file_name_for(name: &str) -> (r: String)
    ensures
        r@ == file_name_of(name@),
{
    let mut filename = String::from_str(name);
    filename.append(".webm");
    filename
}

impl Slice {
    /// A data slice carrying `data` for the session named `name`.
    pub fn data(data: Vec<u8>, name: &str) -> (r: Slice)
        ensures
            r@ == (SliceView { filename: file_name_of(name@), payload: data@, command: None }),
            r@.wf(),
    {
        Slice { filename: file_name_for(name), payload: data, command: None }
    }

    /// A control slice carrying `command` for the session named `name`.
    pub fn control(command: String, name: &str) -> (r: Slice)
        ensures
            r@ == (SliceView {
                filename: file_name_of(name@),
                payload: Seq::empty(),
                command: Some(command@),
            }),
            r@.wf(),
    {
        let payload: Vec<u8> = Vec::new();
        let r = Slice { filename: file_name_for(name), payload, command: Some(command) };
        assert(r@.payload =~= Seq::<u8>::empty());
        r
    }
}

} // verus!
