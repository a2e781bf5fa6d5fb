//! The commands that run a download or post a notice, and the notices that
//! report how a download went.

use vstd::prelude::*;
use vstd::string::StringExecFns;
use crate::text::{decimal, push_char, push_decimal, owned, strings_view};
use crate::stderr::{with_tail, tail_of, utf8_lossy, with_stderr_tail};

verus! {

/// The yt-dlp output template inside a staging directory.
pub open spec fn output_template(staging: Seq<char>) -> Seq<char> {
    staging + "/%(title)s.%(ext)s"@
}

/// The yt-dlp arguments: the chosen options, then the output template in the
/// staging directory, then the link.
pub fn yt_dlp_args(options: Vec<String>, staging: &str, url: &str) -> (r: Vec<String>)
    ensures
        strings_view(r@) == strings_view(options@) + seq![
            "-o"@,
            output_template(staging@),
            url@,
        ],
{
    let mut args = options;
    let ghost before = strings_view(args@);
    args.push(owned("-o"));
    let mut template = owned(staging);
    template.append("/%(title)s.%(ext)s");
    args.push(template);
    args.push(owned(url));
    assert(strings_view(args@) =~= before + seq!["-o"@, output_template(staging@), url@]);
    args
}

/// The aria2c arguments: download into the staging directory, resume, seed
/// for sixty minutes, then the link.
pub fn aria2c_args(staging: &str, url: &str) -> (r: Vec<String>)
    ensures
        strings_view(r@) == seq![
            "--dir"@,
            staging@,
            "--continue=true"@,
            "--seed-time=60"@,
            url@,
        ],
{
    let r = vec![
        owned("--dir"),
        owned(staging),
        owned("--continue=true"),
        owned("--seed-time=60"),
        owned(url),
    ];
    assert(strings_view(r@) =~= seq![
        "--dir"@,
        staging@,
        "--continue=true"@,
        "--seed-time=60"@,
        url@,
    ]);
    r
}

/// The program that posts notices to the chat room.
pub fn notice_program() -> (r: &'static str)
    ensures
        r@ == "/home/felix/.cargo/bin/t2"@,
{
    "/home/felix/.cargo/bin/t2"
}

/// The arguments that post `msg` to the chat room.
pub fn notice_args(msg: &str) -> (r: Vec<String>)
    ensures
        strings_view(r@) == seq!["pub"@, "string/matrix"@, msg@, "tcp:10.0.0.2:9999"@],
{
    let r = vec![owned("pub"), owned("string/matrix"), owned(msg), owned("tcp:10.0.0.2:9999")];
    assert(strings_view(r@) =~= seq![
        "pub"@,
        "string/matrix"@,
        msg@,
        "tcp:10.0.0.2:9999"@,
    ]);
    r
}

/// The exit code a failure message shows: the process's code, or -1 when it
/// was ended by a signal.
pub open spec fn shown_code(code: Option<i32>) -> i32 {
    match code {
        Some(c) => c,
        None => -1i32,
    }
}

/// The exit code a failure message shows.
pub fn exit_code(code: Option<i32>) -> (r: i32)
    ensures
        r == shown_code(code),
{
    match code {
        Some(c) => c,
        None => -1,
    }
}

/// The decimal representation of a signed number.
pub open spec fn signed_decimal(n: int) -> Seq<char> {
    if n < 0 {
        seq!['-'] + decimal((-n) as nat)
    } else {
        decimal(n as nat)
    }
}

fn push_signed(out: &mut String, n: i32)
    ensures
        final(out)@ == old(out)@ + signed_decimal(n as int),
{
    if n < 0 {
        push_char(out, '-');
        let m: i64 = -(n as i64);
        push_decimal(out, m as u128);
    } else {
        push_decimal(out, n as u128);
    }
    assert(out@ =~= old(out)@ + signed_decimal(n as int));
}

/// The notice that a download starts.
pub open spec fn started_text(label: Seq<char>, url: Seq<char>) -> Seq<char> {
    "Downloading "@ + label + seq![' '] + url + "..."@
}

/// `Downloading {label} {url}...`
pub fn download_started(label: &str, url: &str) -> (r: String)
    ensures
        r@ == started_text(label@, url@),
{
    let mut r = owned("Downloading ");
    r.append(label);
    push_char(&mut r, ' ');
    r.append(url);
    r.append("...");
    assert(r@ =~= started_text(label@, url@));
    r
}

/// The start of a failure notice: `Failed to download {label}`, then
/// ` to {dest}` when a destination is named, then `: `.
pub open spec fn failed_head(label: Seq<char>, dest: Option<Seq<char>>) -> Seq<char> {
    "Failed to download "@ + label + match dest {
        Some(d) => " to "@ + d,
        None => Seq::empty(),
    } + ": "@
}

/// The text of an optional string slice.
pub open spec fn opt_str_view(o: Option<&str>) -> Option<Seq<char>> {
    match o {
        Some(s) => Some(s@),
        None => None,
    }
}

fn push_failed_head(out: &mut String, label: &str, dest: Option<&str>)
    ensures
        final(out)@ == old(out)@ + failed_head(label@, opt_str_view(dest)),
{
    out.append("Failed to download ");
    out.append(label);
    match dest {
        Some(d) => {
            out.append(" to ");
            out.append(d);
        },
        None => {},
    }
    out.append(": ");
    assert(out@ =~= old(out)@ + failed_head(label@, opt_str_view(dest)));
}

/// The notice that a download could not start or run: the failure head and
/// the reason.
pub fn download_failed(label: &str, dest: Option<&str>, reason: &str) -> (r: String)
    ensures
        r@ == failed_head(label@, opt_str_view(dest)) + reason@,
{
    let mut r = String::new();
    push_failed_head(&mut r, label, dest);
    r.append(reason);
    r
}

/// The notice that a downloader exited unsuccessfully, before the stderr
/// tail is added.
pub open spec fn exit_text(label: Seq<char>, dest: Option<Seq<char>>, code: Option<i32>) -> Seq<
    char,
> {
    failed_head(label, dest) + "exit code "@ + signed_decimal(shown_code(code) as int)
}

/// The notice that a downloader exited unsuccessfully: the failure head, the
/// exit code, and the tail of its stderr on the next line.
pub fn download_exit_failure(label: &str, dest: Option<&str>, code: Option<i32>, stderr: &[u8]) -> (r:
    String)
    ensures
        r@ == with_tail(
            exit_text(label@, opt_str_view(dest), code),
            tail_of(utf8_lossy(stderr@)),
        ),
{
    let mut msg = String::new();
    push_failed_head(&mut msg, label, dest);
    msg.append("exit code ");
    push_signed(&mut msg, exit_code(code));
    assert(msg@ =~= exit_text(label@, opt_str_view(dest), code));
    with_stderr_tail(msg, stderr)
}

/// The notice that moving a downloaded file failed, before the stderr tail
/// is added.
pub open spec fn move_failed_text(src: Seq<char>, dest: Seq<char>, code: Option<i32>) -> Seq<
    char,
> {
    "mv "@ + src + seq![' '] + dest + " failed with exit code "@ + signed_decimal(
        shown_code(code) as int,
    )
}

/// `mv {src} {dest} failed with exit code {code}`, with the tail of its
/// stderr on the next line.
pub fn move_failure(src: &str, dest: &str, code: Option<i32>, stderr: &[u8]) -> (r: String)
    ensures
        r@ == with_tail(move_failed_text(src@, dest@, code), tail_of(utf8_lossy(stderr@))),
{
    let mut msg = owned("mv ");
    msg.append(src);
    push_char(&mut msg, ' ');
    msg.append(dest);
    msg.append(" failed with exit code ");
    push_signed(&mut msg, exit_code(code));
    assert(msg@ =~= move_failed_text(src@, dest@, code));
    with_stderr_tail(msg, stderr)
}

/// The names joined with `, `.
pub open spec fn joined_names(names: Seq<Seq<char>>) -> Seq<char>
    decreases names.len(),
{
    if names.len() == 0 {
        Seq::empty()
    } else if names.len() == 1 {
        names[0]
    } else {
        joined_names(names.drop_last()) + ", "@ + names.last()
    }
}

/// How a finished download is named in notices: `unknown` when nothing was
/// moved, else the moved names joined with `, `.
pub open spec fn name_of_download(names: Seq<Seq<char>>) -> Seq<char> {
    if names.len() == 0 {
        "unknown"@
    } else {
        joined_names(names)
    }
}

/// How a finished download is named in notices.
pub fn downloaded_name(names: &[String]) -> (r: String)
    ensures
        r@ == name_of_download(names@.map_values(|s: String| s@)),
{
    let ghost all = names@.map_values(|s: String| s@);
    if names.len() == 0 {
        return owned("unknown");
    }
    let mut r = String::new();
    let mut i: usize = 0;
    while i < names.len()
        invariant
            all == names@.map_values(|s: String| s@),
            i <= names.len(),
            r@ == joined_names(all.subrange(0, i as int)),
        decreases names.len() - i,
    {
        let ghost done = all.subrange(0, i as int);
        proof {
            assert(all.subrange(0, i + 1).drop_last() =~= done);
        }
        if i > 0 {
            r.append(", ");
        }
        r.append(names[i].as_str());
        proof {
            if i == 0 {
                assert(r@ =~= all.subrange(0, 1)[0]);
            } else {
                assert(r@ =~= joined_names(done) + ", "@ + all[i as int]);
            }
        }
        i = i + 1;
    }
    assert(all.subrange(0, i as int) =~= all);
    r
}

/// The notice after a download finished: its name when the files were moved
/// into place, else why moving them failed.
pub open spec fn finished_text(
    label: Seq<char>,
    dest_dir: Seq<char>,
    moved: Result<Seq<Seq<char>>, Seq<char>>,
) -> Seq<char> {
    match moved {
        Ok(names) => "Downloaded "@ + label + ": "@ + name_of_download(names),
        Err(e) => "Downloaded "@ + label + " but failed to move to "@ + dest_dir + ": "@ + e,
    }
}

/// The names or the error of a move, as texts.
pub open spec fn moved_view(moved: Result<Vec<String>, String>) -> Result<Seq<Seq<char>>, Seq<char>> {
    match moved {
        Ok(names) => Ok(names@.map_values(|s: String| s@)),
        Err(e) => Err(e@),
    }
}

/// The notice after a download finished and its files were (or were not)
/// moved into `dest_dir`.
pub fn download_finished(label: &str, dest_dir: &str, moved: &Result<Vec<String>, String>) -> (r:
    String)
    ensures
        r@ == finished_text(label@, dest_dir@, moved_view(*moved)),
{
    let mut r = owned("Downloaded ");
    r.append(label);
    match moved {
        Ok(names) => {
            r.append(": ");
            let name = downloaded_name(names.as_slice());
            r.append(name.as_str());
        },
        Err(e) => {
            r.append(" but failed to move to ");
            r.append(dest_dir);
            r.append(": ");
            r.append(e.as_str());
        },
    }
    assert(r@ =~= finished_text(label@, dest_dir@, moved_view(*moved)));
    r
}

/// The downloaders a job can run.
pub enum Downloader {
    YtDlp,
    Aria2c,
}

/// How a download job went up to the end of its downloader's run.
pub enum RunOutcome {
    /// The staging directory could not be made; `error` says why.
    StagingFailed { error: String },
    /// The downloader could not be started; `error` says why.
    SpawnFailed { error: String },
    /// The downloader ran and exited.
    Exited { success: bool, code: Option<i32>, stderr: Vec<u8> },
}

/// A [`RunOutcome`] with its texts and bytes as sequences.
pub enum RunOutcomeView {
    StagingFailed { error: Seq<char> },
    SpawnFailed { error: Seq<char> },
    Exited { success: bool, code: Option<i32>, stderr: Seq<u8> },
}

impl View for RunOutcome {
    type V = RunOutcomeView;

    open spec fn view(&self) -> RunOutcomeView {
        match self {
            RunOutcome::StagingFailed { error } => RunOutcomeView::StagingFailed { error: error@ },
            RunOutcome::SpawnFailed { error } => RunOutcomeView::SpawnFailed { error: error@ },
            RunOutcome::Exited { success, code, stderr } => RunOutcomeView::Exited {
                success: *success,
                code: *code,
                stderr: stderr@,
            },
        }
    }
}

/// What follows a downloader's run.
pub enum NextStep {
    /// Move the downloaded files from staging into place.
    MoveIntoPlace,
    /// Post this failure notice and stop.
    Notify { message: String },
}

/// A [`NextStep`] with its notice as a sequence.
pub enum NextStepView {
    MoveIntoPlace,
    Notify { message: Seq<char> },
}

impl View for NextStep {
    type V = NextStepView;

    open spec fn view(&self) -> NextStepView {
        match self {
            NextStep::MoveIntoPlace => NextStepView::MoveIntoPlace,
            NextStep::Notify { message } => NextStepView::Notify { message: message@ },
        }
    }
}

/// The destination that failure notices of this downloader name: aria2c
/// notices name it, yt-dlp notices do not.
pub open spec fn named_dest(tool: Downloader, dest_dir: Seq<char>) -> Option<Seq<char>> {
    match tool {
        Downloader::YtDlp => None,
        Downloader::Aria2c => Some(dest_dir),
    }
}

/// What follows a run: a successful exit moves the files into place; a
/// failed staging directory, a failed start or an unsuccessful exit posts the
/// matching failure notice (a staging failure never names the destination).
pub open spec fn next_step(
    tool: Downloader,
    label: Seq<char>,
    dest_dir: Seq<char>,
    outcome: RunOutcomeView,
) -> NextStepView {
    match outcome {
        RunOutcomeView::StagingFailed { error } => NextStepView::Notify {
            message: failed_head(label, None) + error,
        },
        RunOutcomeView::SpawnFailed { error } => NextStepView::Notify {
            message: failed_head(label, named_dest(tool, dest_dir)) + error,
        },
        RunOutcomeView::Exited { success, code, stderr } => if success {
            NextStepView::MoveIntoPlace
        } else {
            NextStepView::Notify {
                message: with_tail(
                    exit_text(label, named_dest(tool, dest_dir), code),
                    tail_of(utf8_lossy(stderr)),
                ),
            }
        },
    }
}

/// What follows a download job's run.
pub fn after_run(tool: Downloader, label: &str, dest_dir: &str, outcome: &RunOutcome) -> (r:
    NextStep)
    ensures
        r@ == next_step(tool, label@, dest_dir@, outcome@),
{
    let dest: Option<&str> = match tool {
        Downloader::YtDlp => None,
        Downloader::Aria2c => Some(dest_dir),
    };
    match outcome {
        RunOutcome::StagingFailed { error } => NextStep::Notify {
            message: download_failed(label, None, error.as_str()),
        },
        RunOutcome::SpawnFailed { error } => NextStep::Notify {
            message: download_failed(label, dest, error.as_str()),
        },
        RunOutcome::Exited { success, code, stderr } => {
            if *success {
                NextStep::MoveIntoPlace
            } else {
                NextStep::Notify {
                    message: download_exit_failure(label, dest, *code, stderr.as_slice()),
                }
            }
        },
    }
}

/// How moving one downloaded file went.
pub enum MoveOutcome {
    /// `mv` could not be started; `error` says why.
    SpawnFailed { error: String },
    /// `mv` ran and exited.
    Exited { success: bool, code: Option<i32>, stderr: Vec<u8> },
}

/// A [`MoveOutcome`] with its texts and bytes as sequences.
pub enum MoveOutcomeView {
    SpawnFailed { error: Seq<char> },
    Exited { success: bool, code: Option<i32>, stderr: Seq<u8> },
}

impl View for MoveOutcome {
    type V = MoveOutcomeView;

    open spec fn view(&self) -> MoveOutcomeView {
        match self {
            MoveOutcome::SpawnFailed { error } => MoveOutcomeView::SpawnFailed { error: error@ },
            MoveOutcome::Exited { success, code, stderr } => MoveOutcomeView::Exited {
                success: *success,
                code: *code,
                stderr: stderr@,
            },
        }
    }
}

/// What follows moving one file.
pub enum MoveStep {
    /// The file is in place; go on with the next one.
    Moved,
    /// Stop moving and report this error.
    Stop { message: String },
}

/// A [`MoveStep`] with its error as a sequence.
pub enum MoveStepView {
    Moved,
    Stop { message: Seq<char> },
}

impl View for MoveStep {
    type V = MoveStepView;

    open spec fn view(&self) -> MoveStepView {
        match self {
            MoveStep::Moved => MoveStepView::Moved,
            MoveStep::Stop { message } => MoveStepView::Stop { message: message@ },
        }
    }
}

/// What follows moving `src` to `dest`: a successful exit goes on to the next
/// file; a failed start or an unsuccessful exit stops the move with its error.
pub open spec fn move_step(src: Seq<char>, dest: Seq<char>, outcome: MoveOutcomeView) -> MoveStepView {
    match outcome {
        MoveOutcomeView::SpawnFailed { error } => MoveStepView::Stop {
            message: "failed to spawn mv: "@ + error,
        },
        MoveOutcomeView::Exited { success, code, stderr } => if success {
            MoveStepView::Moved
        } else {
            MoveStepView::Stop {
                message: with_tail(move_failed_text(src, dest, code), tail_of(utf8_lossy(stderr))),
            }
        },
    }
}

/// What follows moving one downloaded file from `src` to `dest`.
pub fn after_move(src: &str, dest: &str, outcome: &MoveOutcome) -> (r: MoveStep)
    ensures
        r@ == move_step(src@, dest@, outcome@),
{
    match outcome {
        MoveOutcome::SpawnFailed { error } => {
            let mut message = owned("failed to spawn mv: ");
            message.append(error.as_str());
            MoveStep::Stop { message }
        },
        MoveOutcome::Exited { success, code, stderr } => {
            if *success {
                MoveStep::Moved
            } else {
                MoveStep::Stop { message: move_failure(src, dest, *code, stderr.as_slice()) }
            }
        },
    }
}

/// Where the `i`-th name starts in names joined with `, `.
pub open spec fn name_offset(names: Seq<Seq<char>>, i: int) -> int
    decreases i,
{
    if i <= 0 {
        0
    } else {
        name_offset(names, i - 1) + names[i - 1].len() + 2
    }
}

proof fn lemma_name_offset_prefix(names: Seq<Seq<char>>, k: int, i: int)
    requires
        0 <= i <= k <= names.len(),
    ensures
        name_offset(names.subrange(0, k), i) == name_offset(names, i),
    decreases i,
{
    if i > 0 {
        lemma_name_offset_prefix(names, k, i - 1);
        assert(names.subrange(0, k)[i - 1] == names[i - 1]);
    }
}

proof fn lemma_offset_nonneg(names: Seq<Seq<char>>, i: int)
    ensures
        name_offset(names, i) >= 0,
    decreases i,
{
    if i > 0 {
        lemma_offset_nonneg(names, i - 1);
    }
}

proof fn lemma_offset_grows(names: Seq<Seq<char>>, a: int, b: int)
    requires
        0 <= a < b,
    ensures
        name_offset(names, a) + names[a].len() + 2 <= name_offset(names, b),
    decreases b - a,
{
    if b > a + 1 {
        lemma_offset_grows(names, a, b - 1);
    }
}

proof fn lemma_joined_len(names: Seq<Seq<char>>)
    requires
        names.len() > 0,
    ensures
        joined_names(names).len() == name_offset(names, names.len() - 1) + names.last().len(),
    decreases names.len(),
{
    reveal_strlit(", ");
    let n = names.len();
    if n > 1 {
        let p = names.drop_last();
        lemma_joined_len(p);
        lemma_name_offset_prefix(names, n - 1, n - 2);
        assert(p =~= names.subrange(0, n - 1));
        assert(p.last() == names[n - 2]);
    }
}

proof fn lemma_joined_at(names: Seq<Seq<char>>, i: int)
    requires
        0 <= i < names.len(),
    ensures
        joined_names(names).subrange(name_offset(names, i), name_offset(names, i) + names[i].len())
            == names[i],
        i < names.len() - 1 ==> joined_names(names).subrange(
            name_offset(names, i) + names[i].len(),
            name_offset(names, i + 1),
        ) == ", "@,
    decreases names.len(),
{
    reveal_strlit(", ");
    let n = names.len();
    if n == 1 {
        assert(names[0].subrange(0, names[0].len() as int) =~= names[0]);
    } else {
        let p = names.drop_last();
        let jp = joined_names(p);
        let j = joined_names(names);
        assert(j == jp + ", "@ + names.last());
        assert(p =~= names.subrange(0, n - 1));
        lemma_joined_len(p);
        lemma_name_offset_prefix(names, n - 1, n - 2);
        assert(p.last() == names[n - 2]);
        let o = name_offset(names, i);
        lemma_offset_nonneg(names, i);
        if i < n - 1 {
            lemma_joined_at(p, i);
            lemma_name_offset_prefix(names, n - 1, i);
            lemma_name_offset_prefix(names, n - 1, i + 1);
            assert(p[i] == names[i]);
            if i < n - 2 {
                if i + 1 < n - 2 {
                    lemma_offset_grows(names, i + 1, n - 2);
                }
                assert(j.subrange(o, o + names[i].len()) =~= jp.subrange(o, o + names[i].len()));
                assert(j.subrange(o + names[i].len(), name_offset(names, i + 1)) =~= jp.subrange(
                    o + names[i].len(),
                    name_offset(names, i + 1),
                ));
            } else {
                assert(j.subrange(o, o + names[i].len()) =~= jp.subrange(o, o + names[i].len()));
                assert(j.subrange(o + names[i].len(), name_offset(names, i + 1)) =~= ", "@);
            }
        } else {
            assert(o == jp.len() + 2);
            assert(j.subrange(o, o + names[i].len()) =~= names.last());
        }
    }
}

/// The name of a download lists every moved name, in order, with `, `
/// between them: the `i`-th name starts after the earlier names and their
/// separators, and nothing else is in it; with no names it is `unknown`.
pub proof fn downloaded_name_lists_every_name(names: Seq<Seq<char>>)
    ensures
        names.len() == 0 ==> name_of_download(names) == "unknown"@,
        names.len() > 0 ==> {
            &&& name_of_download(names).len() == name_offset(names, names.len() - 1)
                + names.last().len()
            &&& forall|i: int|
                #![trigger names[i]]
                0 <= i < names.len() ==> name_of_download(names).subrange(
                    name_offset(names, i),
                    name_offset(names, i) + names[i].len(),
                ) == names[i]
            &&& forall|i: int|
                #![trigger names[i]]
                0 <= i < names.len() - 1 ==> name_of_download(names).subrange(
                    name_offset(names, i) + names[i].len(),
                    name_offset(names, i + 1),
                ) == ", "@
        },
{
    if names.len() > 0 {
        lemma_joined_len(names);
        assert forall|i: int| #![trigger names[i]] 0 <= i < names.len() implies name_of_download(
            names,
        ).subrange(name_offset(names, i), name_offset(names, i) + names[i].len()) == names[i] by {
            lemma_joined_at(names, i);
        }
        assert forall|i: int| #![trigger names[i]] 0 <= i < names.len() - 1 implies name_of_download(
            names,
        ).subrange(name_offset(names, i) + names[i].len(), name_offset(names, i + 1)) == ", "@ by {
            lemma_joined_at(names, i);
        }
    }
}

} // verus!
