//! The decisions around downloading a template and replacing the output
//! directory: which responses are accepted, what each failed attempt
//! reports, and the staging directory that holds a generation until it is
//! committed.
use vstd::prelude::*;
use crate::archive::{has_zip_signature, is_zip_signature};
use crate::catalog::string_views;
use crate::text::{copy_str, decimal, push_decimal, push_str};

verus! {

// ---------------------------------------------------------------------------
// Download attempts
// ---------------------------------------------------------------------------
/// What one request for a candidate address brought back.
pub enum DownloadResponse {
    /// The request could not be sent or answered.
    SendFailed(String),
    /// The server answered with a status other than success (its display text).
    Status(String),
    /// The body of a successful response could not be read.
    ReadFailed(String),
    /// The body of a successful response, with its `Content-Type` if any.
    Body { content_type: Option<String>, bytes: Vec<u8> },
}

/// The message recorded for a failed attempt, or `None` when the body is a
/// ZIP archive to extract.
pub open spec fn response_problem(url: Seq<char>, r: DownloadResponse) -> Option<Seq<char>> {
    match r {
        DownloadResponse::SendFailed(e) => Some(url + " 下载失败: "@ + e@),
        DownloadResponse::Status(s) => Some(url + " 返回 HTTP "@ + s@),
        DownloadResponse::ReadFailed(e) => Some(url + " 读取响应失败: "@ + e@),
        DownloadResponse::Body { content_type, bytes } => if is_zip_signature(bytes@) {
            None
        } else {
            Some(
                url + " 返回的不是 ZIP（Content-Type: "@ + match content_type {
                    Some(c) => c@,
                    None => "未知"@,
                } + "，"@ + decimal(bytes@.len()) + " 字节）"@,
            )
        },
    }
}

/// Checks what a candidate address brought back: `Ok` when it is a ZIP
/// archive to extract, else the message that records the failed attempt.
pub fn check_download(url: &str, response: &DownloadResponse) -> (r: Result<(), String>)
    ensures
        match response_problem(url@, *response) {
            None => r is Ok,
            Some(m) => r matches Err(e) && e@ == m,
        },
{
    match response {
        DownloadResponse::SendFailed(e) => {
            let mut m = copy_str(url);
            push_str(&mut m, " 下载失败: ");
            push_str(&mut m, e.as_str());
            Err(m)
        },
        DownloadResponse::Status(s) => {
            let mut m = copy_str(url);
            push_str(&mut m, " 返回 HTTP ");
            push_str(&mut m, s.as_str());
            Err(m)
        },
        DownloadResponse::ReadFailed(e) => {
            let mut m = copy_str(url);
            push_str(&mut m, " 读取响应失败: ");
            push_str(&mut m, e.as_str());
            Err(m)
        },
        DownloadResponse::Body { content_type, bytes } => {
            if has_zip_signature(bytes.as_slice()) {
                Ok(())
            } else {
                let mut m = copy_str(url);
                push_str(&mut m, " 返回的不是 ZIP（Content-Type: ");
                match content_type {
                    Some(c) => push_str(&mut m, c.as_str()),
                    None => push_str(&mut m, "未知"),
                }
                push_str(&mut m, "，");
                push_decimal(&mut m, bytes.len() as u64);
                push_str(&mut m, " 字节）");
                Err(m)
            }
        },
    }
}

/// How extracting a downloaded archive went wrong.
pub enum ExtractFailure {
    /// Extracting failed with this message.
    Failed(String),
    /// The extracting task itself failed with this message.
    TaskFailed(String),
}

/// The message recorded when extracting the archive from `url` fails.
pub open spec fn extract_problem(url: Seq<char>, f: ExtractFailure) -> Seq<char> {
    match f {
        ExtractFailure::Failed(e) => url + " 解压失败: "@ + e@,
        ExtractFailure::TaskFailed(e) => url + " 解压任务失败: "@ + e@,
    }
}

/// The message recorded when extracting the archive from `url` fails.
pub fn extract_failure_message(url: &str, failure: &ExtractFailure) -> (r: String)
    ensures
        r@ == extract_problem(url@, *failure),
{
    let mut m = copy_str(url);
    match failure {
        ExtractFailure::Failed(e) => {
            push_str(&mut m, " 解压失败: ");
            push_str(&mut m, e.as_str());
        },
        ExtractFailure::TaskFailed(e) => {
            push_str(&mut m, " 解压任务失败: ");
            push_str(&mut m, e.as_str());
        },
    }
    m
}

/// The messages joined with `；`.
pub open spec fn join_messages(ms: Seq<Seq<char>>) -> Seq<char>
    decreases ms.len(),
{
    if ms.len() == 0 {
        seq![]
    } else if ms.len() == 1 {
        ms[0]
    } else {
        join_messages(ms.drop_last()) + "；"@ + ms.last()
    }
}

/// The error of a download for which every candidate address failed.
pub fn download_failure_message(errors: &Vec<String>) -> (r: String)
    ensures
        r@ == "模板下载失败: "@ + join_messages(string_views(errors@)),
{
    let ghost ms = string_views(errors@);
    let mut joined = String::new();
    let mut i: usize = 0;
    while i < errors.len()
        invariant
            ms == string_views(errors@),
            i <= errors.len(),
            joined@ == join_messages(ms.take(i as int)),
        decreases errors.len() - i,
    {
        if i > 0 {
            push_str(&mut joined, "；");
        }
        push_str(&mut joined, errors[i].as_str());
        assert(ms.take(i + 1).drop_last() =~= ms.take(i as int));
        assert(ms.take(i + 1).last() == errors@[i as int]@);
        i += 1;
    }
    assert(ms.take(errors.len() as int) =~= ms);
    let mut r = copy_str("模板下载失败: ");
    push_str(&mut r, joined.as_str());
    r
}

// ---------------------------------------------------------------------------
// Trying the candidate addresses in turn
// ---------------------------------------------------------------------------
/// A download that tries its candidate addresses in order until one of them
/// yields an archive that extracts, recording why each failed attempt failed.
pub struct DownloadAttempts {
    candidates: Vec<String>,
    next: usize,
    errors: Vec<String>,
}

/// What a download does next.
pub enum DownloadAction {
    /// Request this address.
    Fetch(String),
    /// Every address failed: report this message.
    GiveUp(String),
}

impl DownloadAttempts {
    /// The candidate addresses, in the order they are tried.
    pub closed spec fn spec_candidates(&self) -> Seq<Seq<char>> {
        string_views(self.candidates@)
    }

    /// How many candidates have been handed out so far.
    pub closed spec fn spec_tried(&self) -> nat {
        self.next as nat
    }

    /// The messages of the failed attempts, in order.
    pub closed spec fn spec_errors(&self) -> Seq<Seq<char>> {
        string_views(self.errors@)
    }

    /// No candidate is handed out twice or beyond the list.
    pub closed spec fn wf(&self) -> bool {
        self.next <= self.candidates@.len()
    }

    /// A download of the given candidates, none tried yet.
    pub fn new(candidates: Vec<String>) -> (r: Self)
        ensures
            r.wf(),
            r.spec_candidates() == string_views(candidates@),
            r.spec_tried() == 0,
            r.spec_errors() == Seq::<Seq<char>>::empty(),
    {
        let r = DownloadAttempts { candidates, next: 0, errors: Vec::new() };
        assert(string_views(r.errors@) =~= Seq::<Seq<char>>::empty());
        r
    }

    /// The next step: the next untried candidate, or, once all have been
    /// tried, the message that gives up with every recorded failure.
    pub fn next_action(&mut self) -> (r: DownloadAction)
        requires
            old(self).wf(),
        ensures
            final(self).wf(),
            final(self).spec_candidates() == old(self).spec_candidates(),
            final(self).spec_errors() == old(self).spec_errors(),
            old(self).spec_tried() < old(self).spec_candidates().len() ==> (r matches DownloadAction::Fetch(
                url,
            ) && url@ == old(self).spec_candidates()[old(self).spec_tried() as int]
                && final(self).spec_tried() == old(self).spec_tried() + 1),
            old(self).spec_tried() >= old(self).spec_candidates().len() ==> (r matches DownloadAction::GiveUp(
                m,
            ) && m@ == "模板下载失败: "@ + join_messages(old(self).spec_errors())
                && final(self).spec_tried() == old(self).spec_tried()),
    {
        if self.next < self.candidates.len() {
            let url = copy_str(self.candidates[self.next].as_str());
            assert(string_views(self.candidates@)[self.next as int] == self.candidates@[self.next as int]@);
            self.next = self.next + 1;
            DownloadAction::Fetch(url)
        } else {
            DownloadAction::GiveUp(download_failure_message(&self.errors))
        }
    }

    /// Records what the request for `url` brought back. `true` when it is a
    /// ZIP archive to extract; otherwise the failure is recorded.
    pub fn record_response(&mut self, url: &str, response: &DownloadResponse) -> (r: bool)
        requires
            old(self).wf(),
        ensures
            final(self).wf(),
            final(self).spec_candidates() == old(self).spec_candidates(),
            final(self).spec_tried() == old(self).spec_tried(),
            match response_problem(url@, *response) {
                None => r && final(self).spec_errors() == old(self).spec_errors(),
                Some(m) => !r && final(self).spec_errors() == old(self).spec_errors().push(m),
            },
    {
        match check_download(url, response) {
            Ok(()) => true,
            Err(m) => {
                let ghost before = string_views(self.errors@);
                self.errors.push(m);
                assert(string_views(self.errors@) =~= before.push(self.errors@.last()@));
                false
            },
        }
    }

    /// Records that extracting the archive from `url` failed.
    pub fn record_extract_failure(&mut self, url: &str, failure: &ExtractFailure)
        requires
            old(self).wf(),
        ensures
            final(self).wf(),
            final(self).spec_candidates() == old(self).spec_candidates(),
            final(self).spec_tried() == old(self).spec_tried(),
            final(self).spec_errors() == old(self).spec_errors().push(extract_problem(url@, *failure)),
    {
        let m = extract_failure_message(url, failure);
        let ghost before = string_views(self.errors@);
        self.errors.push(m);
        assert(string_views(self.errors@) =~= before.push(self.errors@.last()@));
    }
}

// ---------------------------------------------------------------------------
// Staged output
// ---------------------------------------------------------------------------
/// A directory next to the output directory that receives a generation,
/// and is moved into place only when the generation is complete.
pub struct StagedOutputDir {
    path: String,
    committed: bool,
}

impl StagedOutputDir {
    /// The staging directory's path.
    pub closed spec fn spec_path(&self) -> Seq<char> {
        self.path@
    }

    /// Whether the generation was moved into place.
    pub closed spec fn is_committed(&self) -> bool {
        self.committed
    }

    /// A staging directory at `path`, not committed yet.
    pub fn new(path: String) -> (r: Self)
        ensures
            r.spec_path() == path@,
            !r.is_committed(),
    {
        StagedOutputDir { path, committed: false }
    }

    /// The staging directory's path.
    pub fn path(&self) -> (r: &str)
        ensures
            r@ == self.spec_path(),
    {
        self.path.as_str()
    }

    /// Records that the generation was moved into place.
    pub fn mark_committed(&mut self)
        ensures
            final(self).spec_path() == old(self).spec_path(),
            final(self).is_committed(),
    {
        self.committed = true;
    }

    /// Whether the staging directory must still be removed: only when the
    /// generation was never moved into place.
    pub fn needs_cleanup(&self) -> (r: bool)
        ensures
            r == !self.is_committed(),
    {
        !self.committed
    }
}

/// The error of a commit whose move into place failed, and whose restoring
/// of the previous output failed too when `restore_error` is given.
pub fn commit_failure_message(error: &str, restore_error: Option<&str>) -> (r: String)
    ensures
        r@ == match restore_error {
            Some(e) => "提交生成目录失败: "@ + error@ + "；恢复原输出目录也失败: "@ + e@,
            None => "提交生成目录失败: "@ + error@,
        },
{
    let mut m = copy_str("提交生成目录失败: ");
    push_str(&mut m, error);
    match restore_error {
        Some(e) => {
            push_str(&mut m, "；恢复原输出目录也失败: ");
            push_str(&mut m, e);
        },
        None => {},
    }
    m
}

/// The README written at the root of a generated project.
pub open spec fn scaffold_readme_text(display_name: Seq<char>, config_json: Seq<char>) -> Seq<char> {
    "# "@ + display_name
        + "\n\n由 yudao-scaffold-ui 生成。\n\n## 目录\n\n- `backend/`: 后端模板\n- `frontend/`: 选中的前端模板\n\n## 生成配置\n\n```json\n"@
        + config_json + "\n```\n"@
}

/// The README written at the root of a generated project, around the
/// generation settings as pretty-printed JSON.
pub fn scaffold_readme(display_name: &str, config_json: &str) -> (r: String)
    ensures
        r@ == scaffold_readme_text(display_name@, config_json@),
{
    let mut r = copy_str("# ");
    push_str(&mut r, display_name);
    push_str(
        &mut r,
        "\n\n由 yudao-scaffold-ui 生成。\n\n## 目录\n\n- `backend/`: 后端模板\n- `frontend/`: 选中的前端模板\n\n## 生成配置\n\n```json\n",
    );
    push_str(&mut r, config_json);
    push_str(&mut r, "\n```\n");
    r
}

} // verus!
