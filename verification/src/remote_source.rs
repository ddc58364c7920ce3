//! Reading the captured source of a remote file, window by window.
use crate::errors::{remote_failure, DispatchError};
use crate::ids::lower_hex;
use crate::text::{opt_text, text_eq};
use sha2::Digest;
use vstd::prelude::*;
use vstd::string::*;
use vstd::utf8::*;

verus! {

/// Which captured state of a file is read.
#[derive(Clone, Copy, Debug, PartialEq, Eq, Structural)]
pub enum RemoteSourceRevision {
    MergeBase,
    Worktree,
}

/// A repository of a remote workspace.
#[derive(Debug)]
pub struct RemoteRepositoryRef {
    pub workspace_root: String,
    pub relative_path: String,
}

impl RemoteRepositoryRef {
    /// Copies the reference.
    pub fn copy(&self) -> (reference: RemoteRepositoryRef)
        ensures
            reference == *self,
    {
        RemoteRepositoryRef {
            workspace_root: self.workspace_root.clone(),
            relative_path: self.relative_path.clone(),
        }
    }
}

/// Whether two references name the same repository.
pub open spec fn same_repository(a: RemoteRepositoryRef, b: RemoteRepositoryRef) -> bool {
    a.workspace_root@ == b.workspace_root@ && a.relative_path@ == b.relative_path@
}

/// What a read asks for.
#[derive(Debug)]
pub struct SourceRequest {
    pub capture_id: String,
    pub capture_generation: u64,
    pub repository: RemoteRepositoryRef,
    pub path: String,
    pub revision: RemoteSourceRevision,
}

/// A window of captured source, as a companion sends it.
#[derive(Debug)]
pub struct RemoteSourceWindow {
    pub capture_id: String,
    pub capture_generation: u64,
    pub repository: RemoteRepositoryRef,
    pub path: String,
    pub revision: RemoteSourceRevision,
    pub start_line: u32,
    pub total_lines: u32,
    pub byte_len: u64,
    pub content_sha256_hex: String,
    pub bytes: Vec<u8>,
    pub end_of_file: bool,
}

/// How many windows of a file are read at most.
pub const MAX_WINDOWS_PER_FILE: usize = 16384;

/// How many bytes of a file are read at most.
pub const MAX_MATERIALIZED_SOURCE_BYTES: u64 = 67108864;

/// The SHA-256 digest of some bytes.
pub uninterp spec fn sha256_of(bytes: Seq<u8>) -> Seq<u8>;

/// Asks `Sha256::digest`, whose result depends on the bytes alone.
#[verifier::external_body]
fn digest(bytes: &Vec<u8>) -> (hash: Vec<u8>)
    ensures
        hash@ == sha256_of(bytes@),
{
    sha2::Sha256::digest(bytes).to_vec()
}

/// Bytes in hexadecimal: two lower-case digits for each, the high one first.
pub open spec fn hex_chars(bytes: Seq<u8>) -> Seq<char> {
    Seq::new(
        2 * bytes.len(),
        |i: int|
            lower_hex(
                if i % 2 == 0 {
                    bytes[i / 2] as int / 16
                } else {
                    bytes[i / 2] as int % 16
                },
            ),
    )
}

/// Asks `hex::encode`, which writes two lower-case digits for each byte.
#[verifier::external_body]
fn hex_text(bytes: &Vec<u8>) -> (text: String)
    ensures
        text@ == hex_chars(bytes@),
{
    hex::encode(bytes)
}

/// Asks `String::from_utf8`, which takes valid encodings and no others.
#[verifier::external_body]
fn decode(bytes: Vec<u8>) -> (text: Option<String>)
    ensures
        match text {
            Some(decoded) => encode_utf8(decoded@) == bytes@,
            None => !valid_utf8(bytes@),
        },
{
    String::from_utf8(bytes).ok()
}

/// Whether a byte is a hexadecimal digit.
pub open spec fn is_hex_digit(byte: u8) -> bool {
    0x30 <= byte <= 0x39 || 0x41 <= byte <= 0x46 || 0x61 <= byte <= 0x66
}

/// Whether a text can be the hexadecimal form of a SHA-256 digest.
pub open spec fn is_sha256_hex(text: Seq<char>) -> bool {
    &&& encode_utf8(text).len() == 64
    &&& forall|i: int| 0 <= i < 64 ==> is_hex_digit(#[trigger] encode_utf8(text)[i])
}

fn check_sha256_hex(text: &str) -> (accepted: bool)
    ensures
        accepted == is_sha256_hex(text@),
{
    let bytes = text.as_bytes();
    if bytes.len() != 64 {
        return false;
    }
    let mut i: usize = 0;
    while i < 64
        invariant
            i <= 64,
            bytes.len() == 64,
            bytes@ == text.spec_bytes(),
            forall|j: int| 0 <= j < i ==> is_hex_digit(#[trigger] bytes@[j]),
        decreases 64 - i,
    {
        let byte: u8 = bytes[i];
        if !((0x30 <= byte && byte <= 0x39) || (0x41 <= byte && byte <= 0x46) || (0x61 <= byte
            && byte <= 0x66)) {
            assert(!is_hex_digit(encode_utf8(text@)[i as int]));
            return false;
        }
        i += 1;
    }
    true
}

/// Whether a window answers a request for the lines from `start_line` on.
pub open spec fn answers(window: RemoteSourceWindow, request: SourceRequest, start_line: u32) -> bool {
    &&& window.capture_id@ == request.capture_id@
    &&& window.capture_generation == request.capture_generation
    &&& same_repository(window.repository, request.repository)
    &&& window.path@ == request.path@
    &&& window.revision == request.revision
    &&& window.start_line == start_line
    &&& is_sha256_hex(window.content_sha256_hex@)
}

/// Refuses a window that does not answer its request.
pub fn validate_remote_source_window(
    window: &RemoteSourceWindow,
    request: &SourceRequest,
    start_line: u32,
) -> (result: Result<(), DispatchError>)
    ensures
        if answers(*window, *request, start_line) {
            result is Ok
        } else {
            result matches Err(error) && error.is_remote(
                "remote source response did not match its capture identity; refresh is required"@,
            )
        },
{
    if text_eq(window.capture_id.as_str(), request.capture_id.as_str()) && window.capture_generation
        == request.capture_generation && text_eq(
        window.repository.workspace_root.as_str(),
        request.repository.workspace_root.as_str(),
    ) && text_eq(
        window.repository.relative_path.as_str(),
        request.repository.relative_path.as_str(),
    ) && text_eq(window.path.as_str(), request.path.as_str()) && window.revision
        == request.revision && window.start_line == start_line && check_sha256_hex(
        window.content_sha256_hex.as_str(),
    ) {
        Ok(())
    } else {
        Err(
            remote_failure(
                "remote source response did not match its capture identity; refresh is required",
            ),
        )
    }
}

/// How far the read of a file has come.
pub struct ReaderModel {
    pub start_line: u32,
    pub expected_hash: Option<Seq<char>>,
    pub expected_total: Option<u32>,
    pub output: Seq<u8>,
    pub windows: nat,
    pub window_lines: u32,
}

/// What a window does to a read.
pub enum ReadModel {
    /// The file is complete: its bytes.
    Done(Seq<u8>),
    /// More windows are needed.
    More(ReaderModel),
    /// The read failed, with this message.
    Failed(Seq<char>),
}

/// The start of a read whose windows have so many lines.
pub open spec fn fresh_reader(window_lines: u32) -> ReaderModel {
    ReaderModel {
        start_line: 1,
        expected_hash: None,
        expected_total: None,
        output: Seq::empty(),
        windows: 0,
        window_lines,
    }
}

/// The line behind a window that starts at `line`.
pub open spec fn next_start(line: u32, window_lines: u32) -> u32 {
    if line + window_lines <= u32::MAX {
        (line + window_lines) as u32
    } else {
        u32::MAX
    }
}

/// Whether a window speaks of the same file as the windows before it.
pub open spec fn agrees(reader: ReaderModel, window: RemoteSourceWindow) -> bool {
    &&& reader.expected_hash matches Some(hash) ==> hash == window.content_sha256_hex@
    &&& reader.expected_total matches Some(total) ==> total == window.total_lines
}

/// What a window does to a read.
pub open spec fn read_step(reader: ReaderModel, window: RemoteSourceWindow, request: SourceRequest) -> ReadModel {
    let output = reader.output + window.bytes@;
    if !answers(window, request, reader.start_line) {
        ReadModel::Failed(
            "remote source response did not match its capture identity; refresh is required"@,
        )
    } else if !agrees(reader, window) {
        ReadModel::Failed(
            "remote source changed while windows were being read; refresh is required"@,
        )
    } else if window.byte_len > MAX_MATERIALIZED_SOURCE_BYTES || output.len()
        > MAX_MATERIALIZED_SOURCE_BYTES {
        ReadModel::Failed(
            "remote source is larger than the 64 MiB materialization limit; it remains metadata-only until a narrower source mode is available"@,
        )
    } else if window.end_of_file {
        if output.len() != window.byte_len || hex_chars(sha256_of(output))
            != window.content_sha256_hex@ {
            ReadModel::Failed(
                "remote source bytes did not match the captured hash/length; refresh is required"@,
            )
        } else if !valid_utf8(output) {
            ReadModel::Failed(
                "remote source was not valid UTF-8 text; it cannot be shown as a code diff"@,
            )
        } else {
            ReadModel::Done(output)
        }
    } else if window.bytes@.len() == 0 {
        ReadModel::Failed("remote source window made no progress; refresh is required"@)
    } else if reader.windows + 1 >= MAX_WINDOWS_PER_FILE {
        ReadModel::Failed(
            "remote source exceeded the bounded window budget; narrow the file or refresh"@,
        )
    } else {
        ReadModel::More(
            ReaderModel {
                start_line: next_start(reader.start_line, reader.window_lines),
                expected_hash: Some(window.content_sha256_hex@),
                expected_total: Some(window.total_lines),
                output,
                windows: reader.windows + 1,
                window_lines: reader.window_lines,
            },
        )
    }
}

/// A read of a captured file that is under way.
#[derive(Debug)]
pub struct SourceReader {
    start_line: u32,
    expected_hash: Option<String>,
    expected_total: Option<u32>,
    output: Vec<u8>,
    windows: usize,
    window_lines: u32,
}

/// What became of a read.
#[derive(Debug)]
pub enum ReadProgress {
    /// The file is complete.
    Done(String),
    /// More windows are needed.
    More(SourceReader),
    /// The read failed.
    Failed(DispatchError),
}

/// Whether a read went as the model says.
pub open spec fn is_progress(progress: ReadProgress, model: ReadModel) -> bool {
    match model {
        ReadModel::Done(bytes) => progress matches ReadProgress::Done(text) && encode_utf8(text@)
            == bytes,
        ReadModel::More(reader) => progress matches ReadProgress::More(next) && next@ == reader
            && next.wf(),
        ReadModel::Failed(message) => progress matches ReadProgress::Failed(error)
            && error.is_remote(message),
    }
}

impl View for SourceReader {
    type V = ReaderModel;

    closed spec fn view(&self) -> ReaderModel {
        ReaderModel {
            start_line: self.start_line,
            expected_hash: opt_text(self.expected_hash),
            expected_total: self.expected_total,
            output: self.output@,
            windows: self.windows as nat,
            window_lines: self.window_lines,
        }
    }
}

impl SourceReader {
    /// The read is within its bounds.
    pub open spec fn wf(self) -> bool {
        &&& self@.windows < MAX_WINDOWS_PER_FILE
        &&& self@.output.len() <= MAX_MATERIALIZED_SOURCE_BYTES
    }

    /// Starts a read whose windows have so many lines.
    pub fn new(window_lines: u32) -> (reader: SourceReader)
        ensures
            reader@ == fresh_reader(window_lines),
            reader.wf(),
    {
        let reader = SourceReader {
            start_line: 1,
            expected_hash: None,
            expected_total: None,
            output: Vec::new(),
            windows: 0,
            window_lines,
        };
        assert(reader@.output =~= Seq::<u8>::empty());
        reader
    }

    /// The line at which the next window has to start.
    pub fn next_line(&self) -> (line: u32)
        ensures
            line == self@.start_line,
    {
        self.start_line
    }

    /// Takes the next window in.
    pub fn accept(self, window: &RemoteSourceWindow, request: &SourceRequest) -> (progress: ReadProgress)
        requires
            self.wf(),
        ensures
            is_progress(progress, read_step(self@, *window, *request)),
    {
        match validate_remote_source_window(window, request, self.start_line) {
            Err(error) => {
                return ReadProgress::Failed(error);
            },
            Ok(_) => {},
        }
        let same_hash: bool = match &self.expected_hash {
            Some(hash) => text_eq(hash.as_str(), window.content_sha256_hex.as_str()),
            None => true,
        };
        let same_total: bool = match self.expected_total {
            Some(total) => total == window.total_lines,
            None => true,
        };
        if !same_hash || !same_total {
            return ReadProgress::Failed(
                remote_failure(
                    "remote source changed while windows were being read; refresh is required",
                ),
            );
        }
        let room: u64 = MAX_MATERIALIZED_SOURCE_BYTES - self.output.len() as u64;
        if window.byte_len > MAX_MATERIALIZED_SOURCE_BYTES || window.bytes.len() as u64 > room {
            return ReadProgress::Failed(
                remote_failure(
                    "remote source is larger than the 64 MiB materialization limit; it remains metadata-only until a narrower source mode is available",
                ),
            );
        }
        let ghost before = self@;
        let windows: usize = self.windows;
        let start_line: u32 = self.start_line;
        let window_lines: u32 = self.window_lines;
        let mut output = self.output;
        output.extend_from_slice(window.bytes.as_slice());
        assert(output@ =~= before.output + window.bytes@);
        if window.end_of_file {
            if output.len() as u64 != window.byte_len || !text_eq(
                hex_text(&digest(&output)).as_str(),
                window.content_sha256_hex.as_str(),
            ) {
                return ReadProgress::Failed(
                    remote_failure(
                        "remote source bytes did not match the captured hash/length; refresh is required",
                    ),
                );
            }
            return match decode(output) {
                Some(text) => {
                    proof {
                        encode_utf8_valid_utf8(text@);
                    }
                    ReadProgress::Done(text)
                },
                None => ReadProgress::Failed(
                    remote_failure(
                        "remote source was not valid UTF-8 text; it cannot be shown as a code diff",
                    ),
                ),
            };
        }
        if window.bytes.len() == 0 {
            return ReadProgress::Failed(
                remote_failure("remote source window made no progress; refresh is required"),
            );
        }
        if windows + 1 >= MAX_WINDOWS_PER_FILE {
            return ReadProgress::Failed(
                remote_failure(
                    "remote source exceeded the bounded window budget; narrow the file or refresh",
                ),
            );
        }
        ReadProgress::More(
            SourceReader {
                start_line: start_line.saturating_add(window_lines),
                expected_hash: Some(window.content_sha256_hex.clone()),
                expected_total: Some(window.total_lines),
                output,
                windows: windows + 1,
                window_lines,
            },
        )
    }
}

/// What a list of windows does to a read.
pub open spec fn read_windows(
    reader: ReaderModel,
    windows: Seq<RemoteSourceWindow>,
    request: SourceRequest,
) -> ReadModel
    decreases windows.len(),
{
    if windows.len() == 0 {
        ReadModel::More(reader)
    } else {
        match read_step(reader, windows[0], request) {
            ReadModel::More(next) => read_windows(next, windows.drop_first(), request),
            end => end,
        }
    }
}

/// The bytes of a list of windows, in order.
pub open spec fn bytes_of(windows: Seq<RemoteSourceWindow>) -> Seq<u8>
    decreases windows.len(),
{
    if windows.len() == 0 {
        Seq::empty()
    } else {
        windows[0].bytes@ + bytes_of(windows.drop_first())
    }
}

/// The line at which the window at `index` has to start.
pub open spec fn start_of_window(index: nat, window_lines: u32) -> u32
    decreases index,
{
    if index == 0 {
        1
    } else {
        next_start(start_of_window((index - 1) as nat, window_lines), window_lines)
    }
}

/// Whether windows are a faithful account of one captured file: each answers
/// the request for its lines, all tell the digest and the length of the whole
/// file, and the last one, and no other, ends it.
pub open spec fn faithful(
    windows: Seq<RemoteSourceWindow>,
    request: SourceRequest,
    source: Seq<u8>,
    total_lines: u32,
    window_lines: u32,
) -> bool {
    &&& 1 <= windows.len() <= MAX_WINDOWS_PER_FILE
    &&& bytes_of(windows) == source
    &&& forall|i: int|
        0 <= i < windows.len() ==> {
            let window = #[trigger] windows[i];
            &&& answers(window, request, start_of_window(i as nat, window_lines))
            &&& window.total_lines == total_lines
            &&& window.byte_len == source.len()
            &&& window.content_sha256_hex@ == hex_chars(sha256_of(source))
            &&& window.end_of_file == (i == windows.len() - 1)
            &&& i < windows.len() - 1 ==> window.bytes@.len() > 0
        }
}

/// A captured text file that is not too large is read back exactly, however
/// it was cut into windows.
pub proof fn law_faithful_windows_give_the_file_back(
    windows: Seq<RemoteSourceWindow>,
    request: SourceRequest,
    source: Seq<u8>,
    total_lines: u32,
    window_lines: u32,
)
    requires
        faithful(windows, request, source, total_lines, window_lines),
        source.len() <= MAX_MATERIALIZED_SOURCE_BYTES,
        valid_utf8(source),
    ensures
        read_windows(fresh_reader(window_lines), windows, request) == ReadModel::Done(source),
{
    assert(windows.skip(0) =~= windows);
    assert(fresh_reader(window_lines).output + bytes_of(windows) =~= source);
    lemma_reads_on(fresh_reader(window_lines), windows, 0, request, source, total_lines, window_lines);
}

proof fn lemma_reads_on(
    reader: ReaderModel,
    windows: Seq<RemoteSourceWindow>,
    index: nat,
    request: SourceRequest,
    source: Seq<u8>,
    total_lines: u32,
    window_lines: u32,
)
    requires
        faithful(windows, request, source, total_lines, window_lines),
        source.len() <= MAX_MATERIALIZED_SOURCE_BYTES,
        valid_utf8(source),
        index < windows.len(),
        reader.start_line == start_of_window(index, window_lines),
        reader.window_lines == window_lines,
        reader.windows == index,
        reader.expected_hash matches Some(hash) ==> hash == hex_chars(sha256_of(source)),
        reader.expected_total matches Some(total) ==> total == total_lines,
        reader.output + bytes_of(windows.skip(index as int)) == source,
    ensures
        read_windows(reader, windows.skip(index as int), request) == ReadModel::Done(source),
    decreases windows.len() - index,
{
    let rest = windows.skip(index as int);
    let window = windows[index as int];
    assert(rest[0] == window);
    assert(rest.drop_first() =~= windows.skip(index as int + 1));
    let output = reader.output + window.bytes@;
    assert(output + bytes_of(rest.drop_first()) =~= source);
    if index == windows.len() - 1 {
        assert(windows.skip(index as int + 1).len() == 0);
        assert(output =~= source);
    } else {
        let next = read_step(reader, window, request);
        assert(next is More);
        lemma_reads_on(
            next->More_0,
            windows,
            index + 1,
            request,
            source,
            total_lines,
            window_lines,
        );
    }
}

/// What a read ends with has the digest and the length that every window told.
pub proof fn law_read_source_has_the_told_digest(
    reader: ReaderModel,
    window: RemoteSourceWindow,
    request: SourceRequest,
    source: Seq<u8>,
)
    requires
        read_step(reader, window, request) == ReadModel::Done(source),
    ensures
        hex_chars(sha256_of(source)) == window.content_sha256_hex@,
        source.len() == window.byte_len,
        reader.expected_hash matches Some(hash) ==> hash == hex_chars(sha256_of(source)),
        source == reader.output + window.bytes@,
        answers(window, request, reader.start_line),
{
}

} // verus!
