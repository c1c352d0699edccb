//! The window's state and how each user action changes it: the address
//! field, the three tick boxes, the override switch, and the buttons that
//! start a download or the PDF conversion.

use vstd::prelude::*;
use vstd::string::*;
use crate::crawler::enabled;

verus! {

/// What the window shows and remembers.
#[derive(Debug, Clone, PartialEq, Eq)]
pub struct State {
    pub url: String,
    pub download_pdfs: bool,
    pub download_imgs: bool,
    pub scan_subfolders: bool,
    pub is_downloading: bool,
    pub override_existing_files: bool,
}

/// The address the window starts with.
pub open spec fn default_url() -> Seq<char> {
    "https://dl.chughtailibrary.com/files/repository/book_quest/history_geography/2/pdf_images/"@
}

impl Default for State {
    /// The window as it opens: the sample address, every box ticked, not
    /// downloading, existing files kept.
    fn default() -> (r: State)
        ensures
            r.url@ == default_url(),
            r.download_pdfs && r.download_imgs && r.scan_subfolders,
            !r.is_downloading,
            !r.override_existing_files,
    {
        State {
            url: String::from_str(
                "https://dl.chughtailibrary.com/files/repository/book_quest/history_geography/2/pdf_images/",
            ),
            download_pdfs: true,
            download_imgs: true,
            scan_subfolders: true,
            is_downloading: false,
            override_existing_files: false,
        }
    }
}

/// A user action, or the end of a download.
#[derive(Debug, Clone, PartialEq, Eq)]
pub enum Message {
    UrlChanged(String),
    PdfToggle(bool),
    ImgToggle(bool),
    SubfolderToggle(bool),
    DownloadPressed,
    DownloadFinished(String),
    ConvertToPdfPressed,
    OverrideToggle(bool),
}

/// What the window asks to be done after an action.
#[derive(Debug, PartialEq, Eq)]
pub enum Command {
    Nothing,
    /// Crawl `url` with the three answers, then report `DownloadFinished`.
    StartDownload { url: String, download_pdfs: char, download_imgs: char, scan_subfolders: char },
    /// Convert the downloaded images to PDFs, then tell the user.
    ConvertToPdf,
    /// Tell the user that the download is over.
    NotifyDownloadFinished,
}

/// A ticked box answers `y`, an empty one `n`.
pub open spec fn answer_of(checked: bool) -> char {
    if checked {
        'y'
    } else {
        'n'
    }
}

/// The answer a tick box gives.
pub fn flag_char(checked: bool) -> (r: char)
    ensures
        r == answer_of(checked),
{
    if checked {
        'y'
    } else {
        'n'
    }
}

/// The state after `m`, as far as its plain fields go (the address is
/// stated apart).
pub open spec fn flags_after(s: State, m: Message) -> (bool, bool, bool, bool, bool) {
    let f = (
        s.download_pdfs,
        s.download_imgs,
        s.scan_subfolders,
        s.is_downloading,
        s.override_existing_files,
    );
    match m {
        Message::PdfToggle(v) => (v, f.1, f.2, f.3, f.4),
        Message::ImgToggle(v) => (f.0, v, f.2, f.3, f.4),
        Message::SubfolderToggle(v) => (f.0, f.1, v, f.3, f.4),
        Message::DownloadPressed => (f.0, f.1, f.2, true, f.4),
        Message::DownloadFinished(_) => (f.0, f.1, f.2, false, f.4),
        Message::OverrideToggle(v) => (f.0, f.1, f.2, f.3, v),
        _ => f,
    }
}

/// The plain fields of a state.
pub open spec fn flags_of(s: State) -> (bool, bool, bool, bool, bool) {
    (s.download_pdfs, s.download_imgs, s.scan_subfolders, s.is_downloading, s.override_existing_files)
}

/// A command as mathematical values.
pub enum CommandModel {
    Nothing,
    StartDownload { url: Seq<char>, download_pdfs: char, download_imgs: char, scan_subfolders: char },
    ConvertToPdf,
    NotifyDownloadFinished,
}

impl View for Command {
    type V = CommandModel;

    open spec fn view(&self) -> CommandModel {
        match self {
            Command::Nothing => CommandModel::Nothing,
            Command::StartDownload { url, download_pdfs, download_imgs, scan_subfolders } =>
                CommandModel::StartDownload {
                url: url@,
                download_pdfs: *download_pdfs,
                download_imgs: *download_imgs,
                scan_subfolders: *scan_subfolders,
            },
            Command::ConvertToPdf => CommandModel::ConvertToPdf,
            Command::NotifyDownloadFinished => CommandModel::NotifyDownloadFinished,
        }
    }
}

/// What `m` asks to be done in the state `s`.
pub open spec fn command_for(s: State, m: Message) -> CommandModel {
    match m {
        Message::DownloadPressed => CommandModel::StartDownload {
            url: s.url@,
            download_pdfs: answer_of(s.download_pdfs),
            download_imgs: answer_of(s.download_imgs),
            scan_subfolders: answer_of(s.scan_subfolders),
        },
        Message::ConvertToPdfPressed => CommandModel::ConvertToPdf,
        Message::DownloadFinished(_) => CommandModel::NotifyDownloadFinished,
        _ => CommandModel::Nothing,
    }
}

/// The address after `m`.
pub open spec fn url_after(s: State, m: Message) -> Seq<char> {
    match m {
        Message::UrlChanged(u) => u@,
        _ => s.url@,
    }
}

/// Applies `message` to the window's state and says what to do next.
pub fn update(state: &mut State, message: Message) -> (r: Command)
    ensures
        flags_of(*final(state)) == flags_after(*old(state), message),
        final(state).url@ == url_after(*old(state), message),
        r@ == command_for(*old(state), message),
{
    match message {
        Message::UrlChanged(new_url) => {
            state.url = new_url;
            Command::Nothing
        },
        Message::PdfToggle(v) => {
            state.download_pdfs = v;
            Command::Nothing
        },
        Message::ImgToggle(v) => {
            state.download_imgs = v;
            Command::Nothing
        },
        Message::SubfolderToggle(v) => {
            state.scan_subfolders = v;
            Command::Nothing
        },
        Message::DownloadPressed => {
            state.is_downloading = true;
            Command::StartDownload {
                url: state.url.clone(),
                download_pdfs: flag_char(state.download_pdfs),
                download_imgs: flag_char(state.download_imgs),
                scan_subfolders: flag_char(state.scan_subfolders),
            }
        },
        Message::ConvertToPdfPressed => Command::ConvertToPdf,
        Message::DownloadFinished(_) => {
            state.is_downloading = false;
            Command::NotifyDownloadFinished
        },
        Message::OverrideToggle(v) => {
            state.override_existing_files = v;
            Command::Nothing
        },
    }
}

/// What the window draws from a state: the two buttons' labels and whether
/// they can be pressed.
#[derive(Debug, PartialEq, Eq)]
pub struct ViewModel {
    pub download_label: String,
    pub download_enabled: bool,
    pub convert_label: String,
    pub convert_enabled: bool,
}

/// While downloading, both buttons are shown disabled with a waiting label.
pub fn view(state: &State) -> (r: ViewModel)
    ensures
        r.download_enabled == !state.is_downloading,
        r.convert_enabled == !state.is_downloading,
        r.download_label@ == (if state.is_downloading {
            "Downloading"@
        } else {
            "Download"@
        }),
        r.convert_label@ == (if state.is_downloading {
            "Wait for downloading to complete..."@
        } else {
            "Convert Img to PDF"@
        }),
{
    if state.is_downloading {
        ViewModel {
            download_label: String::from_str("Downloading"),
            download_enabled: false,
            convert_label: String::from_str("Wait for downloading to complete..."),
            convert_enabled: false,
        }
    } else {
        ViewModel {
            download_label: String::from_str("Download"),
            download_enabled: true,
            convert_label: String::from_str("Convert Img to PDF"),
            convert_enabled: true,
        }
    }
}

/// A tick box and the crawler agree: the answer a box gives switches its
/// option on exactly when the box is ticked.
pub proof fn law_tick_box_answers(checked: bool)
    ensures
        enabled(answer_of(checked)) == checked,
{
}

/// Starting a download and hearing that it finished leaves the window as it
/// was before, with nothing being downloaded; the download is started with
/// the address and ticks shown when the button was pressed.
pub proof fn law_download_round_trip(s: State, done: String)
    requires
        !s.is_downloading,
    ensures
        ({
            let pressed = flags_after(s, Message::DownloadPressed);
            pressed.3 && (pressed.0, pressed.1, pressed.2, pressed.4) == (
                s.download_pdfs,
                s.download_imgs,
                s.scan_subfolders,
                s.override_existing_files,
            )
        }),
        flags_after(
            State { is_downloading: true, ..s },
            Message::DownloadFinished(done),
        ) == flags_of(s),
        url_after(s, Message::DownloadPressed) == s.url@,
        command_for(s, Message::DownloadPressed) == (CommandModel::StartDownload {
            url: s.url@,
            download_pdfs: answer_of(s.download_pdfs),
            download_imgs: answer_of(s.download_imgs),
            scan_subfolders: answer_of(s.scan_subfolders),
        }),
{
}

/// Whether a download is under way after the message `m`, given whether one
/// was before.
pub open spec fn downloading_step(downloading: bool, m: Message) -> bool {
    match m {
        Message::DownloadPressed => true,
        Message::DownloadFinished(_) => false,
        _ => downloading,
    }
}

/// Whether a download is under way after the messages `msgs`, starting from
/// a window where none is (as it opens).
pub open spec fn downloading_after(msgs: Seq<Message>) -> bool
    decreases msgs.len(),
{
    if msgs.len() == 0 {
        false
    } else {
        downloading_step(downloading_after(msgs.drop_last()), msgs.last())
    }
}

/// Some download press among `msgs` has no finished message after it.
pub open spec fn unfinished_press(msgs: Seq<Message>) -> bool {
    exists|i: int|
        0 <= i < msgs.len() && #[trigger] msgs[i] is DownloadPressed && forall|j: int|
            i < j < msgs.len() ==> !(#[trigger] msgs[j] is DownloadFinished)
}

/// Each update moves the downloading flag as `downloading_step` says.
pub proof fn law_update_moves_downloading(s: State, m: Message)
    ensures
        flags_after(s, m).3 == downloading_step(s.is_downloading, m),
{
}

/// From the window as it opens, a download is under way exactly when some
/// press of the download button has no finished download after it; no other
/// message changes that.
pub proof fn law_downloading_until_finished(msgs: Seq<Message>)
    ensures
        downloading_after(msgs) == unfinished_press(msgs),
    decreases msgs.len(),
{
    if msgs.len() > 0 {
        let prev = msgs.drop_last();
        let n = msgs.len() - 1;
        law_downloading_until_finished(prev);
        match msgs.last() {
            Message::DownloadPressed => {
                assert(msgs[n] is DownloadPressed);
                assert(unfinished_press(msgs));
            },
            Message::DownloadFinished(_) => {
                if unfinished_press(msgs) {
                    let i = choose|i: int|
                        0 <= i < msgs.len() && #[trigger] msgs[i] is DownloadPressed && forall|
                            j: int,
                        | i < j < msgs.len() ==> !(#[trigger] msgs[j] is DownloadFinished);
                    if i < n {
                        assert(msgs[n] is DownloadFinished);
                    }
                }
            },
            _ => {
                assert(!(msgs[n] is DownloadPressed));
                assert(!(msgs[n] is DownloadFinished));
                if unfinished_press(msgs) {
                    let i = choose|i: int|
                        0 <= i < msgs.len() && #[trigger] msgs[i] is DownloadPressed && forall|
                            j: int,
                        | i < j < msgs.len() ==> !(#[trigger] msgs[j] is DownloadFinished);
                    assert(i < n);
                    assert(prev[i] == msgs[i]);
                    assert forall|j: int| i < j < prev.len() implies !(
                    #[trigger] prev[j] is DownloadFinished) by {
                        assert(prev[j] == msgs[j]);
                    }
                    assert(unfinished_press(prev));
                }
                if unfinished_press(prev) {
                    let i = choose|i: int|
                        0 <= i < prev.len() && #[trigger] prev[i] is DownloadPressed && forall|
                            j: int,
                        | i < j < prev.len() ==> !(#[trigger] prev[j] is DownloadFinished);
                    assert(msgs[i] == prev[i]);
                    assert forall|j: int| i < j < msgs.len() implies !(
                    #[trigger] msgs[j] is DownloadFinished) by {
                        if j < n {
                            assert(prev[j] == msgs[j]);
                        }
                    }
                    assert(unfinished_press(msgs));
                }
            },
        }
    }
}

proof fn lemma_states_follow_downloading(states: Seq<State>, msgs: Seq<Message>, k: int)
    requires
        states.len() == msgs.len() + 1,
        !states[0].is_downloading,
        forall|i: int|
            0 <= i < msgs.len() ==> flags_of(#[trigger] states[i + 1]) == flags_after(
                states[i],
                msgs[i],
            ),
        0 <= k <= msgs.len(),
    ensures
        states[k].is_downloading == downloading_after(msgs.take(k)),
    decreases k,
{
    if k > 0 {
        lemma_states_follow_downloading(states, msgs, k - 1);
        assert(msgs.take(k).drop_last() =~= msgs.take(k - 1));
        assert(msgs.take(k).last() == msgs[k - 1]);
        assert(flags_of(states[(k - 1) + 1]) == flags_after(states[k - 1], msgs[k - 1]));
    }
}

/// A run of the window: when each state follows the one before by `update`
/// with the next message, and the first state is not downloading (as the
/// window opens), the last state is downloading exactly when some press of
/// the download button has no finished download after it.
pub proof fn law_window_downloading_after_updates(states: Seq<State>, msgs: Seq<Message>)
    requires
        states.len() == msgs.len() + 1,
        !states[0].is_downloading,
        forall|i: int|
            0 <= i < msgs.len() ==> flags_of(#[trigger] states[i + 1]) == flags_after(
                states[i],
                msgs[i],
            ),
    ensures
        states.last().is_downloading == unfinished_press(msgs),
{
    lemma_states_follow_downloading(states, msgs, msgs.len() as int);
    assert(msgs.take(msgs.len() as int) =~= msgs);
    law_downloading_until_finished(msgs);
}

/// Each tick box and the override switch take the value given, whatever
/// they held before, and leave every other field as it was; the address
/// field takes the text given.
pub proof fn law_toggles_set_their_box(s: State, v: bool, u: String)
    ensures
        flags_after(s, Message::PdfToggle(v)) == (
            v,
            s.download_imgs,
            s.scan_subfolders,
            s.is_downloading,
            s.override_existing_files,
        ),
        flags_after(s, Message::ImgToggle(v)) == (
            s.download_pdfs,
            v,
            s.scan_subfolders,
            s.is_downloading,
            s.override_existing_files,
        ),
        flags_after(s, Message::SubfolderToggle(v)) == (
            s.download_pdfs,
            s.download_imgs,
            v,
            s.is_downloading,
            s.override_existing_files,
        ),
        flags_after(s, Message::OverrideToggle(v)) == (
            s.download_pdfs,
            s.download_imgs,
            s.scan_subfolders,
            s.is_downloading,
            v,
        ),
        url_after(s, Message::PdfToggle(v)) == s.url@,
        url_after(s, Message::UrlChanged(u)) == u@,
        flags_after(s, Message::UrlChanged(u)) == flags_of(s),
{
}

} // verus!
