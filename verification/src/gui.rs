//! State of the drag-and-drop front end: what it shows, and how a finished
//! background job moves it on.
use vstd::prelude::*;
use vstd::string::{StrSliceExecFns, StringExecFns};

verus! {

/// What a dropped file is being turned into.
#[derive(Debug, Clone, Copy, PartialEq, Eq, Structural)]
pub enum Action {
    /// A WAV file is being decoded back into the file it carries.
    Decoding,
    /// Any other file is being encoded into a WAV file.
    Encoding,
}

impl Action {
    /// The word shown for the action.
    pub fn label(&self) -> (s: &'static str)
        ensures
            *self == Action::Decoding ==> s@ == "Decoding"@,
            *self == Action::Encoding ==> s@ == "Encoding"@,
    {
        match self {
            Action::Decoding => "Decoding",
            Action::Encoding => "Encoding",
        }
    }
}

/// What the window shows.
#[derive(Debug)]
pub enum GuiState {
    /// Waiting for a file to be dropped.
    Idle,
    /// A background job works on `filename`.
    Processing { filename: String, action: Action },
    /// The job finished and wrote `output`.
    Done { action: Action, output: String },
    /// The job failed with this message.
    Failed(String),
}

/// The state after a poll of the background job: a finished job moves a
/// processing window to `Done` or `Failed`; anything else leaves it as it was.
pub open spec fn after_poll(state: GuiState, finished: Option<Result<String, String>>) -> GuiState {
    match state {
        GuiState::Processing { action, .. } => match finished {
            Some(Ok(output)) => GuiState::Done { action, output },
            Some(Err(message)) => GuiState::Failed(message),
            None => state,
        },
        _ => state,
    }
}

/// A failed job moves a processing window, whatever its file and action, to the
/// error view with the job's message; a successful one moves it to the result view
/// with the same action and the job's output; a window that is not processing
/// keeps its state whatever is reported.
pub proof fn lemma_poll_outcomes(
    filename: String,
    action: Action,
    message: String,
    output: String,
    other: GuiState,
    finished: Option<Result<String, String>>,
)
    ensures
        after_poll(GuiState::Processing { filename, action }, Some(Err(message)))
            == GuiState::Failed(message),
        after_poll(GuiState::Processing { filename, action }, Some(Ok(output))) == (GuiState::Done {
            action,
            output,
        }),
        after_poll(GuiState::Processing { filename, action }, None) == (GuiState::Processing {
            filename,
            action,
        }),
        !(other is Processing) ==> after_poll(other, finished) == other,
{
}

/// ASCII lower case of a character; other characters are unchanged.
pub open spec fn ascii_lower(c: char) -> char {
    if 'A' <= c && c <= 'Z' {
        ((c as u32) + 32) as char
    } else {
        c
    }
}

/// Whether an extension names a WAV file depends only on its ASCII lower-case
/// form, character by character: it does exactly when that form is `wav`.
pub proof fn lemma_wav_extension_ignores_case(ext: Seq<char>)
    ensures
        is_wav_ext(ext) == (ext.map_values(|c: char| ascii_lower(c)) == seq!['w', 'a', 'v']),
{
    let low = ext.map_values(|c: char| ascii_lower(c));
    assert(ascii_lower('W') == 'w' && ascii_lower('A') == 'a' && ascii_lower('V') == 'v');
    if ext.len() == 3 {
        assert forall|i: int| 0 <= i < 3 implies #[trigger] low[i] == ascii_lower(ext[i]) by {}
        assert(low[0] == 'w' <==> (ext[0] == 'w' || ext[0] == 'W'));
        assert(low[1] == 'a' <==> (ext[1] == 'a' || ext[1] == 'A'));
        assert(low[2] == 'v' <==> (ext[2] == 'v' || ext[2] == 'V'));
        if is_wav_ext(ext) {
            assert(low =~= seq!['w', 'a', 'v']);
        }
    } else {
        assert(low.len() != seq!['w', 'a', 'v'].len());
    }
}

/// The drag-and-drop window's state machine.
pub struct AfskGui {
    state: GuiState,
}

impl AfskGui {
    /// The state the window is in.
    pub closed spec fn state_of(&self) -> GuiState {
        self.state
    }

    /// A window waiting for a file.
    pub fn new() -> (gui: Self)
        ensures
            gui.state_of() == GuiState::Idle,
    {
        AfskGui { state: GuiState::Idle }
    }

    /// The state to draw.
    pub fn state(&self) -> (s: &GuiState)
        ensures
            *s == self.state_of(),
    {
        &self.state
    }

    /// A background job is running.
    pub fn is_processing(&self) -> (b: bool)
        ensures
            b == (self.state_of() is Processing),
    {
        match &self.state {
            GuiState::Processing { .. } => true,
            _ => false,
        }
    }

    /// A job has been started on `filename`: decoding when it is a WAV file,
    /// encoding otherwise.
    pub fn start_processing(&mut self, filename: String, is_wav: bool)
        ensures
            final(self).state_of() == (GuiState::Processing {
                filename,
                action: if is_wav { Action::Decoding } else { Action::Encoding },
            }),
    {
        let action = if is_wav {
            Action::Decoding
        } else {
            Action::Encoding
        };
        self.state = GuiState::Processing { filename, action };
    }

    /// A file has been dropped on the window. A job starts on it, decoding when it
    /// is a WAV file and encoding otherwise, unless a job is already running, in
    /// which case the drop is ignored. Returns whether a job started.
    pub fn on_drop(&mut self, filename: String, is_wav: bool) -> (started: bool)
        ensures
            started == !(old(self).state_of() is Processing),
            started ==> final(self).state_of() == (GuiState::Processing {
                filename,
                action: if is_wav { Action::Decoding } else { Action::Encoding },
            }),
            !started ==> final(self).state_of() == old(self).state_of(),
    {
        if self.is_processing() {
            false
        } else {
            self.start_processing(filename, is_wav);
            true
        }
    }

    /// Take in what the background job reported, if anything: its output path
    /// or its error message.
    pub fn poll_worker(&mut self, finished: Option<Result<String, String>>)
        ensures
            final(self).state_of() == after_poll(old(self).state_of(), finished),
            old(self).state_of() is Processing ==> match finished {
                Some(Ok(output)) => final(self).state_of() == (GuiState::Done {
                    action: old(self).state_of()->Processing_action,
                    output,
                }),
                Some(Err(message)) => final(self).state_of() == GuiState::Failed(message),
                None => final(self).state_of() == old(self).state_of(),
            },
            !(old(self).state_of() is Processing) ==> final(self).state_of() == old(self).state_of(),
    {
        let action = match &self.state {
            GuiState::Processing { action, .. } => *action,
            _ => {
                return;
            },
        };
        match finished {
            Some(Ok(output)) => {
                self.state = GuiState::Done { action, output };
            },
            Some(Err(message)) => {
                self.state = GuiState::Failed(message);
            },
            None => {},
        }
    }
}

/// A file extension names a WAV file: it is `wav` in any mix of ASCII cases.
pub open spec fn is_wav_ext(ext: Seq<char>) -> bool {
    &&& ext.len() == 3
    &&& (ext[0] == 'w' || ext[0] == 'W')
    &&& (ext[1] == 'a' || ext[1] == 'A')
    &&& (ext[2] == 'v' || ext[2] == 'V')
}

/// Whether a file extension names a WAV file, ignoring ASCII case.
pub fn is_wav_extension(ext: &str) -> (wav: bool)
    ensures
        wav == is_wav_ext(ext@),
        wav == (ext@.map_values(|c: char| ascii_lower(c)) == seq!['w', 'a', 'v']),
{
    proof {
        lemma_wav_extension_ignores_case(ext@);
    }
    if ext.unicode_len() != 3 {
        return false;
    }
    let c0 = ext.get_char(0);
    let c1 = ext.get_char(1);
    let c2 = ext.get_char(2);
    (c0 == 'w' || c0 == 'W') && (c1 == 'a' || c1 == 'A') && (c2 == 'v' || c2 == 'V')
}

/// Longest detail line, in characters, that the result view shows whole.
pub const MAX_DETAIL_CHARS: usize = 55;

/// The detail line of the result view: the text itself when it has at most 55
/// characters, else an ellipsis followed by its last 54 characters.
pub fn display_tail(detail: &str) -> (shown: String)
    ensures
        detail@.len() <= MAX_DETAIL_CHARS ==> shown@ == detail@,
        detail@.len() > MAX_DETAIL_CHARS ==> shown@ == seq!['\u{2026}'] + detail@.subrange(
            detail@.len() - (MAX_DETAIL_CHARS - 1),
            detail@.len() as int,
        ),
{
    let char_count = detail.unicode_len();
    if char_count > MAX_DETAIL_CHARS {
        let skip = char_count - (MAX_DETAIL_CHARS - 1);
        let ellipsis = "\u{2026}";
        proof {
            reveal_strlit("\u{2026}");
        }
        let mut shown = String::from_str(ellipsis);
        shown.append(detail.substring_char(skip, char_count));
        proof {
            assert(ellipsis@ =~= seq!['\u{2026}']);
        }
        shown
    } else {
        String::from_str(detail)
    }
}

} // verus!
