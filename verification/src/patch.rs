//! The patch of the TraeWork main process: its status, and how it is applied and reverted.
use crate::clock;
use crate::gate;
use crate::gate::{Side, AX_AFTER, AX_BEFORE, GATE_WANT};
use crate::gate_laws;
use crate::number;
use crate::paths;
use crate::proxy;
use crate::proxy::{Note, NoteV};
use crate::text;
use vstd::prelude::*;
use vstd::string::*;
use vstd::utf8::*;

verus! {

/// The patched file, in the directory of the application.
pub const MAIN_JS_REL: &'static str = "out/main.js";

/// The file of the fingerprint, in the data directory.
pub const RECORD_FILE: &'static str = "patch_main_js.json";

/// The version of the fingerprint that is understood.
pub const RECORD_SCHEMA: u32 = 1;

/// The state of the patch.
pub struct PatchStatus {
    /// Whether the file was found and read.
    pub supported: bool,
    pub target: Option<String>,
    /// Whether the file can be written.
    pub writable: bool,
    /// Whether the file is patched.
    pub patched: bool,
    /// Whether the version is known; only then it is patched.
    pub recognized: bool,
    /// The number of gates that were found.
    pub gates: usize,
    /// Whether the identity array was found.
    pub identity_patterns: bool,
    pub message: String,
}

/// What was found of the patched file.
pub enum MainJs {
    /// The application is not installed.
    NoApp,
    /// There is no such file.
    Absent(String),
    /// The file cannot be read.
    Unreadable(String),
    /// The file with this path and content. It can be written or not; the hint says what to do
    /// about it.
    Found { path: String, content: String, writable: bool, hint: String },
}

/// The patched file of an application; `windows` tells what the machine runs.
pub fn main_js_path(app_dir: Option<&str>, windows: bool) -> (r: Option<String>)
    ensures
        match app_dir {
            Some(d) => text::opt_text(r) == Some(paths::joined(d@, MAIN_JS_REL@, windows)),
            None => r is None,
        },
{
    match app_dir {
        Some(d) => Some(paths::join(d, MAIN_JS_REL, windows)),
        None => None,
    }
}

/// A file is patched: it has the marker, and all its gates are open.
pub open spec fn is_open(content: Seq<char>) -> bool {
    gate::marked(content) && gate::gates(content, Side::After).len() == GATE_WANT
}

/// A file is of a known version: its gates and its identity array are as delivered, or as opened.
pub open spec fn is_known(content: Seq<char>) -> bool {
    ||| gate::gates(content, Side::Before).len() == GATE_WANT && text::contains(
        content,
        AX_BEFORE@,
    )
    ||| gate::gates(content, Side::After).len() == GATE_WANT && text::contains(content, AX_AFTER@)
}

/// The words on a file that was read.
pub open spec fn status_words(content: Seq<char>, writable: bool, hint: Seq<char>) -> Seq<char> {
    let before = number::decimal(gate::gates(content, Side::Before).len());
    if is_open(content) && is_known(content) {
        "TraeWork 已打「免证书补丁」：端点可用明文 http://，无需安装证书。"@
    } else if is_known(content) && !writable {
        "TraeWork 版本已识别（闸门 "@ + before
            + " 处，本助手认识这个版本），但它的安装目录不可写——"@ + hint
    } else if is_known(content) {
        "TraeWork 未打补丁（识别正常：闸门 "@ + before
            + " 处 / 身份头数组在位），可以打。打完即可用明文 http:// 端点，不再需要证书。"@
    } else if is_open(content) {
        "检测到补丁标记，但闸门形态与预期不符——可能只打了一半，建议「还原补丁」后重来。"@
    } else {
        "TraeWork 版本未被识别（闸门扫到 "@ + before
            + " 处，期望 2 处）——上游改过这段代码，本助手**拒绝**打补丁（以免把 TraeWork 弄坏）。请改用 https 端点（需装证书），或等本助手适配该版本。"@
    }
}

/// The status where the file was not read.
pub open spec fn unsupported(s: PatchStatus, target: Option<Seq<char>>, message: Seq<char>) -> bool {
    &&& !s.supported
    &&& text::opt_text(s.target) == target
    &&& !s.writable
    &&& !s.patched
    &&& !s.recognized
    &&& s.gates == 0
    &&& !s.identity_patterns
    &&& s.message@ == message
}

/// The status of what was found.
pub open spec fn status_of(probe: MainJs, s: PatchStatus) -> bool {
    match probe {
        MainJs::NoApp => unsupported(
            s,
            None,
            "未找到 TraeWork 安装目录，本机无法使用「免证书模式」。"@,
        ),
        MainJs::Absent(p) => unsupported(
            s,
            Some(p@),
            "未找到 TraeWork 的 out/main.js，本机无法使用「免证书模式」。"@,
        ),
        MainJs::Unreadable(p) => unsupported(
            s,
            Some(p@),
            "读取 out/main.js 失败（权限）。请检查「系统设置 → 隐私与安全性 → App 管理」。"@,
        ),
        MainJs::Found { path, content, writable, hint } => {
            let after = gate::gates(content@, Side::After).len();
            let before = gate::gates(content@, Side::Before).len();
            &&& s.supported
            &&& text::opt_text(s.target) == Some(path@)
            &&& s.writable == writable
            &&& s.patched == is_open(content@)
            &&& s.recognized == is_known(content@)
            &&& s.gates == (if after == GATE_WANT {
                after
            } else {
                before
            })
            &&& s.identity_patterns == (text::contains(content@, AX_AFTER@) || text::contains(
                content@,
                AX_BEFORE@,
            ))
            &&& s.message@ == status_words(content@, writable, hint@)
        },
    }
}

fn unsupported_status(target: Option<String>, message: &str) -> (r: PatchStatus)
    ensures
        unsupported(r, text::opt_text(target), message@),
{
    PatchStatus {
        supported: false,
        target,
        writable: false,
        patched: false,
        recognized: false,
        gates: 0,
        identity_patterns: false,
        message: message.to_owned(),
    }
}

/// The status of the patch.
pub fn status(probe: &MainJs) -> (r: PatchStatus)
    ensures
        status_of(*probe, r),
{
    match probe {
        MainJs::NoApp => unsupported_status(
            None,
            "未找到 TraeWork 安装目录，本机无法使用「免证书模式」。",
        ),
        MainJs::Absent(p) => unsupported_status(
            Some(p.clone()),
            "未找到 TraeWork 的 out/main.js，本机无法使用「免证书模式」。",
        ),
        MainJs::Unreadable(p) => unsupported_status(
            Some(p.clone()),
            "读取 out/main.js 失败（权限）。请检查「系统设置 → 隐私与安全性 → App 管理」。",
        ),
        MainJs::Found { path, content, writable, hint } => {
            let after = gate::gates_after(content.as_str());
            let before = gate::gates_before(content.as_str());
            let id_after = gate::has_ax(content.as_str(), AX_AFTER);
            let id_before = gate::has_ax(content.as_str(), AX_BEFORE);
            let patched = gate::has_marker(content.as_str()) && after == GATE_WANT;
            let recognized = (before == GATE_WANT && id_before) || (after == GATE_WANT && id_after);
            let n = number::to_decimal(before as u64);
            let message = if patched && recognized {
                "TraeWork 已打「免证书补丁」：端点可用明文 http://，无需安装证书。".to_owned()
            } else if recognized && !*writable {
                let a = text::plus("TraeWork 版本已识别（闸门 ".to_owned(), n.as_str());
                text::plus(
                    text::plus(a, " 处，本助手认识这个版本），但它的安装目录不可写——"),
                    hint.as_str(),
                )
            } else if recognized {
                let a = text::plus(
                    "TraeWork 未打补丁（识别正常：闸门 ".to_owned(),
                    n.as_str(),
                );
                text::plus(
                    a,
                    " 处 / 身份头数组在位），可以打。打完即可用明文 http:// 端点，不再需要证书。",
                )
            } else if patched {
                "检测到补丁标记，但闸门形态与预期不符——可能只打了一半，建议「还原补丁」后重来。".to_owned()
            } else {
                let a = text::plus("TraeWork 版本未被识别（闸门扫到 ".to_owned(), n.as_str());
                text::plus(
                    a,
                    " 处，期望 2 处）——上游改过这段代码，本助手**拒绝**打补丁（以免把 TraeWork 弄坏）。请改用 https 端点（需装证书），或等本助手适配该版本。",
                )
            };
            PatchStatus {
                supported: true,
                target: Some(path.clone()),
                writable: *writable,
                patched,
                recognized,
                gates: if after == GATE_WANT {
                    after
                } else {
                    before
                },
                identity_patterns: id_after || id_before,
                message,
            }
        },
    }
}

/// Whether the file is patched.
pub fn is_patched(probe: &MainJs) -> (r: bool)
    ensures
        r == (probe matches MainJs::Found { content, .. } && is_open(content@)),
{
    status(probe).patched
}

// ---------------------------------------------------------------------------
// Fingerprints
// ---------------------------------------------------------------------------

/// The SHA-256 digest of a byte string.
pub uninterp spec fn sha256_digest(bytes: Seq<u8>) -> Seq<u8>;

/// `sha2::Sha256::digest`: a function of the bytes alone; a digest has 32 bytes.
#[verifier::external_body]
fn sha256(bytes: &[u8]) -> (r: Vec<u8>)
    ensures
        r@ == sha256_digest(bytes@),
        r@.len() == 32,
{
    let digest: [u8; 32] = <sha2::Sha256 as sha2::Digest>::digest(bytes).into();
    digest.to_vec()
}

/// The digit of a value below sixteen, in lower case.
pub open spec fn hex_digit(d: int) -> char {
    if d < 10 {
        (d + 48) as char
    } else {
        (d + 87) as char
    }
}

/// Bytes in hexadecimal notation, two digits each.
pub open spec fn hex_bytes(b: Seq<u8>) -> Seq<char>
    decreases b.len(),
{
    if b.len() == 0 {
        Seq::empty()
    } else {
        hex_bytes(b.drop_last()) + seq![hex_digit(b.last() as int / 16), hex_digit(
            b.last() as int % 16,
        )]
    }
}

/// The fingerprint of a text.
pub open spec fn fingerprint(s: Seq<char>) -> Seq<char> {
    hex_bytes(sha256_digest(encode_utf8(s)))
}

fn lower_digit(d: u8) -> (r: char)
    requires
        d < 16,
    ensures
        r == hex_digit(d as int),
{
    if d < 10 {
        (d + 48u8) as char
    } else {
        (d + 87u8) as char
    }
}

/// The fingerprint of a text.
pub fn sha256_hex(s: &str) -> (r: String)
    ensures
        r@ == fingerprint(s@),
        r@.len() == 64,
{
    let bytes = text::text_bytes(s);
    let digest = sha256(bytes.as_slice());
    let mut out: Vec<char> = Vec::new();
    let mut i: usize = 0;
    while i < digest.len()
        invariant
            i <= digest@.len(),
            out@ == hex_bytes(digest@.take(i as int)),
            out@.len() == 2 * i,
        decreases digest@.len() - i,
    {
        let b: u8 = digest[i];
        let ghost t = digest@.take(i + 1);
        assert(t.drop_last() == digest@.take(i as int));
        let ghost before = out@;
        out.push(lower_digit(b / 16));
        out.push(lower_digit(b % 16));
        assert(out@ == before + seq![hex_digit(b as int / 16), hex_digit(b as int % 16)]);
        i = i + 1;
    }
    assert(digest@.take(i as int) == digest@);
    text::to_text(out.as_slice())
}

/// The fingerprint of a file before it was patched.
pub struct Record {
    pub schema: u32,
    pub target: String,
    /// The length of the file in bytes.
    pub orig_len: usize,
    pub orig_sha256: String,
    pub applied_at: String,
}

/// The file of the fingerprint in a data directory; `windows` tells what the machine runs.
pub fn record_path(dir: &str, windows: bool) -> (r: String)
    ensures
        r@ == paths::joined(dir@, RECORD_FILE@, windows),
{
    paths::join(dir, RECORD_FILE, windows)
}

/// The fingerprint of a file before it is patched. Its time is a time that the clock has told.
pub fn new_record(target: &str, orig: &str) -> (r: Record)
    ensures
        r.schema == RECORD_SCHEMA,
        r.target@ == target@,
        r.orig_len == encode_utf8(orig@).len(),
        r.orig_sha256@ == fingerprint(orig@),
        clock::is_timestamp(r.applied_at@),
{
    Record {
        schema: RECORD_SCHEMA,
        target: target.to_owned(),
        orig_len: text::text_bytes(orig).len(),
        orig_sha256: sha256_hex(orig),
        applied_at: clock::local_now(clock::TIMESTAMP_FORMAT),
    }
}

/// Whether a fingerprint that was read is understood.
pub fn record_understood(rec: &Record) -> (r: bool)
    ensures
        r == (rec.schema == RECORD_SCHEMA),
{
    rec.schema == RECORD_SCHEMA
}

// ---------------------------------------------------------------------------
// Applying and reverting
// ---------------------------------------------------------------------------

/// What applying the patch comes to.
pub enum ApplyPlan {
    /// The file is patched already.
    Already,
    /// Write this content, store the fingerprint, and note it.
    Write { content: String, record: Record, note: Note },
}

/// The words for an application that is not installed.
pub fn no_app_words() -> (r: String)
    ensures
        r@
            == "未找到 TraeWork 安装目录，无法定位 out/main.js —— 本机不支持「免证书模式」。"@,
{
    "未找到 TraeWork 安装目录，无法定位 out/main.js —— 本机不支持「免证书模式」。".to_owned()
}

/// The words for a file that cannot be read.
pub fn unreadable_words(path: &str, error: &str) -> (r: String)
    ensures
        r@ == "读取 TraeWork 主进程文件失败（"@ + path@ + "）："@ + error@
            + "。若 TraeWork 装在系统「应用程序」里，请在「系统设置 → 隐私与安全性 → App 管理」中允许本助手。"@,
{
    let a = text::plus(text::plus("读取 TraeWork 主进程文件失败（".to_owned(), path), "）：");
    text::plus(
        text::plus(a, error),
        "。若 TraeWork 装在系统「应用程序」里，请在「系统设置 → 隐私与安全性 → App 管理」中允许本助手。",
    )
}

/// The note that the patch was applied.
pub open spec fn applied_note() -> NoteV {
    NoteV {
        event: "patch_apply"@,
        detail: "已给 TraeWork 打「免证书补丁」（闸门接受 http:// + 身份头规则覆盖明文端点），此后端点可用明文，无需安装证书"@,
        dedup: false,
    }
}

/// The note that the patch was reverted.
pub open spec fn reverted_note() -> NoteV {
    NoteV {
        event: "patch_revert"@,
        detail: "已还原 TraeWork 主进程补丁，闸门恢复成「只认 https」的原始行为"@,
        dedup: false,
    }
}

/// Why the patch is not applied to a file that is not patched; none where it is.
pub open spec fn apply_refusal(content: Seq<char>, writable: bool, hint: Seq<char>) -> Option<
    Seq<char>,
> {
    if !is_known(content) {
        Some(status_words(content, writable, hint))
    } else if !writable {
        Some("TraeWork 的 out/main.js 写不进去——"@ + hint)
    } else {
        match gate::patch_result(content) {
            Ok(_) => None,
            Err(e) => Some(e),
        }
    }
}

/// Decides what applying the patch to a file comes to. Nothing is written unless the version is
/// known, the file can be written and opening it succeeds.
pub fn apply(path: &str, content: &str, writable: bool, hint: &str) -> (r: Result<
    ApplyPlan,
    String,
>)
    ensures
        match r {
            Ok(ApplyPlan::Already) => is_open(content@),
            Ok(ApplyPlan::Write { content: c, record, note }) => {
                &&& !is_open(content@)
                &&& apply_refusal(content@, writable, hint@) is None
                &&& gate::patch_result(content@) == Ok::<Seq<char>, Seq<char>>(c@)
                &&& record.schema == RECORD_SCHEMA
                &&& record.target@ == path@
                &&& record.orig_len == encode_utf8(content@).len()
                &&& record.orig_sha256@ == fingerprint(content@)
                &&& clock::is_timestamp(record.applied_at@)
                &&& note@ == applied_note()
            },
            Err(e) => !is_open(content@) && apply_refusal(content@, writable, hint@) == Some(e@),
        },
{
    let probe = MainJs::Found {
        path: path.to_owned(),
        content: content.to_owned(),
        writable,
        hint: hint.to_owned(),
    };
    let st = status(&probe);
    if st.patched {
        return Ok(ApplyPlan::Already);
    }
    if !st.recognized {
        return Err(st.message);
    }
    if !writable {
        return Err(text::plus("TraeWork 的 out/main.js 写不进去——".to_owned(), hint));
    }
    match gate::patch_text(content) {
        Ok(patched) => Ok(
            ApplyPlan::Write {
                content: patched,
                record: new_record(path, content),
                note: proxy::note(
                    "patch_apply",
                    "已给 TraeWork 打「免证书补丁」（闸门接受 http:// + 身份头规则覆盖明文端点），此后端点可用明文，无需安装证书".to_owned(),
                    false,
                ),
            },
        ),
        Err(e) => Err(e),
    }
}

/// The longest beginning of a text that takes no more than twelve bytes.
pub open spec fn cut(s: Seq<char>) -> Seq<char>
    decreases s.len(),
{
    if s.len() == 0 || encode_utf8(s).len() <= 12 {
        s
    } else {
        cut(s.drop_last())
    }
}

fn cut_text(s: &str) -> (r: String)
    ensures
        r@ == cut(s@),
{
    let chars = text::to_chars(s);
    let mut n: usize = chars.len();
    assert(chars@.take(n as int) == s@);
    while n > 0
        invariant
            n <= chars@.len(),
            cut(s@) == cut(chars@.take(n as int)),
        decreases n,
    {
        let t = text::to_text(vstd::slice::slice_subrange(chars.as_slice(), 0, n));
        assert(t@ == chars@.take(n as int));
        if t.as_str().as_bytes().len() <= 12 {
            return t;
        }
        assert(t@.drop_last() == chars@.take(n - 1));
        n = n - 1;
    }
    assert(chars@.take(0) == ""@) by {
        reveal_strlit("");
    }
    "".to_owned()
}

/// The fingerprint that speaks of the file at `path`, if there is one.
pub open spec fn expected(record: Option<&Record>, path: Seq<char>) -> Option<Seq<char>> {
    match record {
        Some(rec) => if rec.schema == RECORD_SCHEMA && rec.target@ == path {
            Some(rec.orig_sha256@)
        } else {
            None
        },
        None => None,
    }
}

/// The words for a restored file that has not the expected fingerprint.
pub open spec fn mismatch_words(want: Seq<char>, got: Seq<char>) -> Seq<char> {
    "还原后的文件与记录的原始指纹不一致（期望 "@ + cut(want) + "…，实得 "@ + cut(got)
        + "…），为避免写入可疑内容，本次**未做任何改动**。若 TraeWork 已升级，当前文件本身就是新的，无需还原。"@
}

/// The content that a patched file is restored to, or why it is not.
pub open spec fn restored(content: Seq<char>, want: Option<Seq<char>>) -> Result<
    Seq<char>,
    Seq<char>,
> {
    match gate::unpatch_result(content) {
        Ok(t) => match want {
            Some(w) => if fingerprint(t) == w {
                Ok(t)
            } else {
                Err(mismatch_words(w, fingerprint(t)))
            },
            None => Ok(t),
        },
        Err(e) => Err(e),
    }
}

/// Decides what reverting the patch of a file comes to: nothing, where the file has no marker, or
/// the content to write and a note. Where a fingerprint is known the restored file has it.
pub fn revert(path: &str, content: &str, record: Option<&Record>) -> (r: Result<
    Option<(String, Note)>,
    String,
>)
    ensures
        match r {
            Ok(None) => !gate::marked(content@),
            Ok(Some((t, n))) => {
                &&& gate::marked(content@)
                &&& restored(content@, expected(record, path@)) == Ok::<Seq<char>, Seq<char>>(t@)
                &&& n@ == reverted_note()
            },
            Err(e) => gate::marked(content@) && restored(content@, expected(record, path@))
                == Err::<Seq<char>, Seq<char>>(e@),
        },
{
    if !gate::has_marker(content) {
        return Ok(None);
    }
    let t = match gate::unpatch_text(content) {
        Ok(t) => t,
        Err(e) => {
            return Err(e);
        },
    };
    if let Some(rec) = record {
        if record_understood(rec) && text::same_text(rec.target.as_str(), path) {
            let got = sha256_hex(t.as_str());
            if !text::same_text(got.as_str(), rec.orig_sha256.as_str()) {
                let a = text::plus(
                    "还原后的文件与记录的原始指纹不一致（期望 ".to_owned(),
                    cut_text(rec.orig_sha256.as_str()).as_str(),
                );
                let b = text::plus(text::plus(a, "…，实得 "), cut_text(got.as_str()).as_str());
                return Err(
                    text::plus(
                        b,
                        "…），为避免写入可疑内容，本次**未做任何改动**。若 TraeWork 已升级，当前文件本身就是新的，无需还原。",
                    ),
                );
            }
        }
    }
    let n = proxy::note(
        "patch_revert",
        "已还原 TraeWork 主进程补丁，闸门恢复成「只认 https」的原始行为".to_owned(),
        false,
    );
    Ok(Some((t, n)))
}

/// What was patched is reverted to the delivered content, with its fingerprint as proof.
///
/// The delivered content has no marker line, and no opened identity array in front of the
/// delivered one.
pub proof fn law_revert_restores_what_was_patched(t: Seq<char>)
    requires
        gate::patch_result(t) is Ok,
        !gate::marked(t),
        gate_laws::array_in_front(t),
    ensures
        ({
            let p = gate::patch_result(t)->Ok_0;
            &&& is_open(p)
            &&& is_known(p)
            &&& restored(p, Some(fingerprint(t))) == Ok::<Seq<char>, Seq<char>>(t)
            &&& restored(p, None) == Ok::<Seq<char>, Seq<char>>(t)
        }),
{
    gate_laws::law_close_undoes_open(t);
    gate_laws::law_opened_file_is_recognised(t);
}

/// A file of an unknown version is never patched.
pub proof fn law_unknown_version_is_refused(content: Seq<char>, writable: bool, hint: Seq<char>)
    requires
        !is_known(content),
    ensures
        apply_refusal(content, writable, hint) is Some,
{
}

} // verus!
