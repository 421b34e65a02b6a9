//! The catalog of Whisper models (ggml format), where each is fetched from,
//! and the bookkeeping of a streamed download.
use vstd::prelude::*;
use crate::text::{prefixed, str_eq};

verus! {

/// A model that the application offers.
#[derive(Clone, Copy)]
pub struct ModelDef {
    pub id: &'static str,
    pub label: &'static str,
    pub file: &'static str,
    pub approx_mb: u32,
    pub note: &'static str,
}

/// A model definition as a mathematical value.
pub struct ModelDefView {
    pub id: Seq<char>,
    pub label: Seq<char>,
    pub file: Seq<char>,
    pub approx_mb: u32,
    pub note: Seq<char>,
}

impl View for ModelDef {
    type V = ModelDefView;

    open spec fn view(&self) -> ModelDefView {
        ModelDefView {
            id: self.id@,
            label: self.label@,
            file: self.file@,
            approx_mb: self.approx_mb,
            note: self.note@,
        }
    }
}

/// The models on offer, lightest first: only light and medium models, for an
/// ordinary laptop.
pub open spec fn catalog() -> Seq<ModelDefView> {
    seq![
        ModelDefView {
            id: "tiny"@,
            label: "Tiny（最速・精度低）"@,
            file: "ggml-tiny.bin"@,
            approx_mb: 75,
            note: "下書きや高速確認向け"@,
        },
        ModelDefView {
            id: "base"@,
            label: "Base（標準・推奨）"@,
            file: "ggml-base.bin"@,
            approx_mb: 142,
            note: "速度と精度のバランス"@,
        },
        ModelDefView {
            id: "small"@,
            label: "Small（高精度・低速）"@,
            file: "ggml-small.bin"@,
            approx_mb: 466,
            note: "日本語の精度を重視する場合"@,
        },
    ]
}

/// The first model of `defs` whose id is `id`.
pub open spec fn find_in(defs: Seq<ModelDefView>, id: Seq<char>) -> Option<ModelDefView>
    decreases defs.len(),
{
    if defs.len() == 0 {
        None
    } else if defs[0].id == id {
        Some(defs[0])
    } else {
        find_in(defs.drop_first(), id)
    }
}

/// The views of a vector of model definitions.
pub open spec fn def_views(v: Seq<ModelDef>) -> Seq<ModelDefView> {
    v.map_values(|m: ModelDef| m@)
}

/// The models on offer.
pub fn models() -> (r: Vec<ModelDef>)
    ensures
        def_views(r@) == catalog(),
{
    let r = vec![
        ModelDef {
            id: "tiny",
            label: "Tiny（最速・精度低）",
            file: "ggml-tiny.bin",
            approx_mb: 75,
            note: "下書きや高速確認向け",
        },
        ModelDef {
            id: "base",
            label: "Base（標準・推奨）",
            file: "ggml-base.bin",
            approx_mb: 142,
            note: "速度と精度のバランス",
        },
        ModelDef {
            id: "small",
            label: "Small（高精度・低速）",
            file: "ggml-small.bin",
            approx_mb: 466,
            note: "日本語の精度を重視する場合",
        },
    ];
    assert(def_views(r@) =~= catalog());
    r
}

/// The model of the catalog whose id is `id`, if there is one.
pub fn find_model(id: &str) -> (r: Option<ModelDef>)
    ensures
        r matches Some(m) ==> find_in(catalog(), id@) == Some(m@),
        r is None <==> find_in(catalog(), id@) is None,
{
    let defs = models();
    let mut i: usize = 0;
    assert(catalog().subrange(0, catalog().len() as int) =~= catalog());
    while i < defs.len()
        invariant
            def_views(defs@) == catalog(),
            i <= defs.len(),
            find_in(catalog(), id@) == find_in(catalog().subrange(i as int, catalog().len() as int), id@),
        decreases defs.len() - i,
    {
        let ghost rest = catalog().subrange(i as int, catalog().len() as int);
        assert(rest[0] == defs@[i as int]@);
        if str_eq(defs[i].id, id) {
            return Some(defs[i]);
        }
        assert(rest.drop_first() =~= catalog().subrange(i + 1, catalog().len() as int));
        i = i + 1;
    }
    None
}

/// Why a model operation failed, with the detail the failing step reported.
pub enum ModelError {
    UnknownModel(String),
    DataDir(String),
    CreateDir(String),
    DownloadStart(String),
    HttpStatus(String),
    TempFile(String),
    Receive(String),
    Write(String),
    Flush(String),
    Finalize(String),
}

/// The message shown for a model error.
pub open spec fn model_error_message(e: ModelError) -> Seq<char> {
    match e {
        ModelError::UnknownModel(d) => "未知のモデル: "@ + d@,
        ModelError::DataDir(d) => "データディレクトリを取得できません: "@ + d@,
        ModelError::CreateDir(d) => "ディレクトリを作成できません: "@ + d@,
        ModelError::DownloadStart(d) => "ダウンロード開始に失敗: "@ + d@,
        ModelError::HttpStatus(d) => "ダウンロード失敗 (HTTP "@ + d@ + ")"@,
        ModelError::TempFile(d) => "一時ファイル作成に失敗: "@ + d@,
        ModelError::Receive(d) => "受信エラー: "@ + d@,
        ModelError::Write(d) => "書き込みエラー: "@ + d@,
        ModelError::Flush(d) => "フラッシュ失敗: "@ + d@,
        ModelError::Finalize(d) => "ファイル確定に失敗: "@ + d@,
    }
}


impl ModelError {
    /// The message shown to the user.
    pub fn message(&self) -> (r: String)
        ensures
            r@ == model_error_message(*self),
    {
        match self {
            ModelError::UnknownModel(d) => prefixed("未知のモデル: ", d.as_str()),
            ModelError::DataDir(d) => prefixed("データディレクトリを取得できません: ", d.as_str()),
            ModelError::CreateDir(d) => prefixed("ディレクトリを作成できません: ", d.as_str()),
            ModelError::DownloadStart(d) => prefixed("ダウンロード開始に失敗: ", d.as_str()),
            ModelError::HttpStatus(d) => {
                let mut r = prefixed("ダウンロード失敗 (HTTP ", d.as_str());
                r.append(")");
                r
            },
            ModelError::TempFile(d) => prefixed("一時ファイル作成に失敗: ", d.as_str()),
            ModelError::Receive(d) => prefixed("受信エラー: ", d.as_str()),
            ModelError::Write(d) => prefixed("書き込みエラー: ", d.as_str()),
            ModelError::Flush(d) => prefixed("フラッシュ失敗: ", d.as_str()),
            ModelError::Finalize(d) => prefixed("ファイル確定に失敗: ", d.as_str()),
        }
    }
}

/// The file name under which the model `id` is stored, or `UnknownModel(id)`
/// when the catalog has no such model.
pub fn model_file(id: &str) -> (r: Result<&'static str, ModelError>)
    ensures
        match find_in(catalog(), id@) {
            Some(m) => r matches Ok(f) && f@ == m.file,
            None => r matches Err(ModelError::UnknownModel(d)) && d@ == id@,
        },
{
    match find_model(id) {
        Some(def) => Ok(def.file),
        None => Err(ModelError::UnknownModel(String::from_str(id))),
    }
}

/// Where the model files are published.
pub open spec fn download_base() -> Seq<char> {
    "https://huggingface.co/ggerganov/whisper.cpp/resolve/main"@
}

/// The address from which the file of `def` is downloaded.
pub fn download_url(def: &ModelDef) -> (r: String)
    ensures
        r@ == download_base() + "/"@ + def.file@,
{
    let mut r = String::from_str("https://huggingface.co/ggerganov/whisper.cpp/resolve/main");
    r.append("/");
    r.append(def.file);
    r
}

/// Where a download starts: nothing to fetch when the model file is already on
/// disk, otherwise the address of the file of `def`.
pub fn download_plan(def: &ModelDef, dest_exists: bool) -> (r: Option<String>)
    ensures
        dest_exists ==> r is None,
        !dest_exists ==> (r matches Some(url) && url@ == download_base() + "/"@ + def.file@),
{
    if dest_exists {
        None
    } else {
        Some(download_url(def))
    }
}

/// Accepts a successful HTTP status; any other fails with `HttpStatus` and the
/// status as the server gave it.
pub fn check_status(success: bool, status: &str) -> (r: Result<(), ModelError>)
    ensures
        success <==> r is Ok,
        r matches Err(e) ==> (e matches ModelError::HttpStatus(d) && d@ == status@),
{
    if success {
        Ok(())
    } else {
        Err(ModelError::HttpStatus(String::from_str(status)))
    }
}

/// The payload of a download progress event.
#[derive(Clone)]
pub struct DownloadProgress {
    pub model: String,
    pub downloaded: u64,
    pub total: u64,
}

/// A progress event as a mathematical value.
pub struct ProgressView {
    pub model: Seq<char>,
    pub downloaded: int,
    pub total: int,
}

impl View for DownloadProgress {
    type V = ProgressView;

    open spec fn view(&self) -> ProgressView {
        ProgressView {
            model: self.model@,
            downloaded: self.downloaded as int,
            total: self.total as int,
        }
    }
}

/// Progress is reported again once this many bytes arrived since the last report.
pub open spec fn report_interval() -> int {
    1_000_000
}

/// The counters of a download as mathematical values.
pub struct TrackerState {
    pub downloaded: int,
    pub last_report: int,
    pub total: int,
}

/// Whether the arrival of a chunk that brings the count to `downloaded` is reported.
pub open spec fn reports(s: TrackerState, downloaded: int) -> bool {
    downloaded - s.last_report >= report_interval() || downloaded == s.total
}

/// The counters after a chunk of `len` bytes arrives.
pub open spec fn after_chunk(s: TrackerState, len: int) -> TrackerState {
    let d = s.downloaded + len;
    TrackerState {
        downloaded: d,
        last_report: if reports(s, d) {
            d
        } else {
            s.last_report
        },
        total: s.total,
    }
}

/// The counters after each chunk of `chunks` arrives in turn.
pub open spec fn after_chunks(s: TrackerState, chunks: Seq<nat>) -> TrackerState
    decreases chunks.len(),
{
    if chunks.len() == 0 {
        s
    } else {
        after_chunk(after_chunks(s, chunks.drop_last()), chunks.last() as int)
    }
}

/// The sum of the lengths of `chunks`.
pub open spec fn total_len(chunks: Seq<nat>) -> int
    decreases chunks.len(),
{
    if chunks.len() == 0 {
        0
    } else {
        total_len(chunks.drop_last()) + chunks.last()
    }
}

/// The counters are consistent: the last report was at or before the current
/// count, and fewer than a report interval of bytes went unreported.
pub open spec fn consistent(s: TrackerState) -> bool {
    0 <= s.last_report <= s.downloaded < s.last_report + report_interval()
}

/// The byte count of the last report, 0 before the first.
pub open spec fn previous_report(reports: Seq<ProgressView>) -> int {
    if reports.len() == 0 {
        0
    } else {
        reports.last().downloaded
    }
}

/// The state of one streamed model download, with the chunks it has counted
/// and the progress it has reported.
pub struct DownloadTracker {
    model: String,
    downloaded: u64,
    last_report: u64,
    total: u64,
    chunks: Ghost<Seq<nat>>,
    reports: Ghost<Seq<ProgressView>>,
    report_points: Ghost<Seq<nat>>,
}

impl DownloadTracker {
    /// The counters of the download.
    pub closed spec fn state(&self) -> TrackerState {
        TrackerState {
            downloaded: self.downloaded as int,
            last_report: self.last_report as int,
            total: self.total as int,
        }
    }

    /// The id of the model being downloaded.
    pub closed spec fn model(&self) -> Seq<char> {
        self.model@
    }

    /// The lengths of the chunks counted so far, in order of arrival.
    pub closed spec fn chunks(&self) -> Seq<nat> {
        self.chunks@
    }

    /// The progress reported so far, in order.
    pub closed spec fn reports(&self) -> Seq<ProgressView> {
        self.reports@
    }

    /// For each report, the number of chunks that had arrived when it was made.
    pub closed spec fn report_points(&self) -> Seq<nat> {
        self.report_points@
    }

    /// The counters are consistent; the count is the total length of the
    /// chunks; each report names the model and the total, and gives the count
    /// at the moment it was made; reports come in order of arrival.
    pub open spec fn wf(&self) -> bool {
        &&& consistent(self.state())
        &&& self.state().downloaded == total_len(self.chunks())
        &&& self.reports().len() == self.report_points().len()
        &&& forall|i: int|
            0 <= i < self.reports().len() ==> {
                &&& #[trigger] self.report_points()[i] <= self.chunks().len()
                &&& self.reports()[i] == (ProgressView {
                    model: self.model(),
                    downloaded: total_len(self.chunks().take(self.report_points()[i] as int)),
                    total: self.state().total,
                })
            }
        &&& forall|i: int, j: int|
            0 <= i < j < self.reports().len() ==> #[trigger] self.report_points()[i]
                < #[trigger] self.report_points()[j]
        &&& self.state().last_report == previous_report(self.reports())
        &&& self.state().downloaded == self.state().total ==> self.state().last_report
            == self.state().downloaded
    }

    /// A download of `model` that has received nothing; `content_length` is
    /// the announced size, 0 when none was announced.
    pub fn new(model: &str, content_length: Option<u64>) -> (t: DownloadTracker)
        ensures
            t.wf(),
            t.model() == model@,
            t.chunks() == Seq::<nat>::empty(),
            t.reports() == Seq::<ProgressView>::empty(),
            t.state() == (TrackerState {
                downloaded: 0,
                last_report: 0,
                total: match content_length {
                    Some(n) => n as int,
                    None => 0,
                },
            }),
    {
        let total = match content_length {
            Some(n) => n,
            None => 0,
        };
        DownloadTracker {
            model: String::from_str(model),
            downloaded: 0,
            last_report: 0,
            total,
            chunks: Ghost(Seq::empty()),
            reports: Ghost(Seq::empty()),
            report_points: Ghost(Seq::empty()),
        }
    }

    /// The number of bytes received so far.
    pub fn downloaded(&self) -> (r: u64)
        ensures
            r == self.state().downloaded,
    {
        self.downloaded
    }

    /// Counts a chunk of `len` bytes and returns the progress event to emit,
    /// if this chunk is reported.
    pub fn on_chunk(&mut self, len: usize) -> (r: Option<DownloadProgress>)
        requires
            old(self).wf(),
            old(self).state().downloaded + len <= u64::MAX,
        ensures
            final(self).wf(),
            final(self).model() == old(self).model(),
            final(self).state() == after_chunk(old(self).state(), len as int),
            final(self).chunks() == old(self).chunks().push(len as nat),
            r is Some <==> reports(old(self).state(), old(self).state().downloaded + len),
            r is Some <==> (old(self).state().downloaded + len - previous_report(old(self).reports())
                >= report_interval() || old(self).state().downloaded + len == old(
                self,
            ).state().total),
            r matches Some(p) ==> p@ == (ProgressView {
                model: old(self).model(),
                downloaded: final(self).state().downloaded,
                total: old(self).state().total,
            }),
            r matches Some(p) ==> final(self).reports() == old(self).reports().push(p@),
            r is None ==> final(self).reports() == old(self).reports(),
    {
        let ghost old_chunks = self.chunks@;
        let ghost new_chunks = old_chunks.push(len as nat);
        proof {
            assert(new_chunks.drop_last() =~= old_chunks);
            assert forall|i: int| 0 <= i < self.reports@.len() implies new_chunks.take(
                #[trigger] self.report_points@[i] as int,
            ) =~= old_chunks.take(self.report_points@[i] as int) by {
                assert(self.report_points@[i] <= old_chunks.len());
            }
        }
        self.downloaded = self.downloaded + len as u64;
        self.chunks = Ghost(new_chunks);
        if self.downloaded - self.last_report >= 1_000_000 || self.downloaded == self.total {
            self.last_report = self.downloaded;
            let p = DownloadProgress {
                model: self.model.clone(),
                downloaded: self.downloaded,
                total: self.total,
            };
            proof {
                assert(new_chunks.take(new_chunks.len() as int) =~= new_chunks);
            }
            self.reports = Ghost(self.reports@.push(p@));
            self.report_points = Ghost(self.report_points@.push(new_chunks.len()));
            Some(p)
        } else {
            None
        }
    }
}

/// Once the announced size has arrived, the last report gives it: when the
/// download is complete and the size is not 0, a report was made and the last
/// one counts exactly the announced size.
pub proof fn lemma_last_report_at_completion(t: &DownloadTracker)
    requires
        t.wf(),
        t.state().downloaded == t.state().total,
        t.state().total > 0,
    ensures
        t.reports().len() > 0,
        t.reports().last().downloaded == t.state().total,
        t.reports().last().total == t.state().total,
{
    let n = t.reports().len() as int;
    if n > 0 {
        assert(t.report_points()[n - 1] <= t.chunks().len());
        assert(t.reports()[n - 1] == t.reports().last());
    }
}

/// The total length of a prefix of the chunks never exceeds that of a longer prefix.
pub proof fn lemma_prefix_len_grows(chunks: Seq<nat>, a: int, b: int)
    requires
        0 <= a <= b <= chunks.len(),
    ensures
        total_len(chunks.take(a)) <= total_len(chunks.take(b)),
    decreases b - a,
{
    if a < b {
        lemma_prefix_len_grows(chunks, a, b - 1);
        assert(chunks.take(b).drop_last() =~= chunks.take(b - 1));
    }
}

/// Every progress report of a download names its model and the announced size,
/// gives the number of bytes received when it was made, and no report counts
/// fewer bytes than one before it.
pub proof fn lemma_reports_in_order(t: &DownloadTracker, i: int, j: int)
    requires
        t.wf(),
        0 <= i < j < t.reports().len(),
    ensures
        t.reports()[i].model == t.model(),
        t.reports()[j].model == t.model(),
        t.reports()[i].total == t.state().total,
        t.reports()[i].downloaded <= t.reports()[j].downloaded,
        t.reports()[j].downloaded <= t.state().downloaded,
{
    let pi = t.report_points()[i] as int;
    let pj = t.report_points()[j] as int;
    lemma_prefix_len_grows(t.chunks(), pi, pj);
    lemma_prefix_len_grows(t.chunks(), pj, t.chunks().len() as int);
    assert(t.chunks().take(t.chunks().len() as int) =~= t.chunks());
}

/// What the application shows of a model: its catalog entry and whether its
/// file is already on disk.
pub struct ModelInfo {
    pub id: String,
    pub label: String,
    pub approx_mb: u32,
    pub note: String,
    pub installed: bool,
}

/// Whether `info` describes the model `def` with the given installation state.
pub open spec fn describes(info: ModelInfo, def: ModelDefView, installed: bool) -> bool {
    &&& info.id@ == def.id
    &&& info.label@ == def.label
    &&& info.approx_mb == def.approx_mb
    &&& info.note@ == def.note
    &&& info.installed == installed
}

/// The models on offer, in catalog order, each marked as installed or not
/// (`installed[i]` tells whether the file of the `i`-th model is on disk).
pub fn model_infos(installed: &Vec<bool>) -> (r: Vec<ModelInfo>)
    requires
        installed.len() == catalog().len(),
    ensures
        r.len() == catalog().len(),
        forall|i: int| 0 <= i < r.len() ==> describes(#[trigger] r[i], catalog()[i], installed[i]),
{
    let defs = models();
    let mut r: Vec<ModelInfo> = Vec::new();
    let mut i: usize = 0;
    while i < defs.len()
        invariant
            def_views(defs@) == catalog(),
            installed.len() == defs.len(),
            i <= defs.len(),
            r.len() == i,
            forall|k: int| 0 <= k < i ==> describes(#[trigger] r[k], catalog()[k], installed[k]),
        decreases defs.len() - i,
    {
        let m = defs[i];
        assert(catalog()[i as int] == m@);
        r.push(
            ModelInfo {
                id: String::from_str(m.id),
                label: String::from_str(m.label),
                approx_mb: m.approx_mb,
                note: String::from_str(m.note),
                installed: installed[i],
            },
        );
        i = i + 1;
    }
    r
}

/// No two models of the catalog share an id.
pub proof fn lemma_catalog_ids_distinct(i: int, j: int)
    requires
        0 <= i < catalog().len(),
        0 <= j < catalog().len(),
        i != j,
    ensures
        catalog()[i].id != catalog()[j].id,
{
    reveal_strlit("tiny");
    reveal_strlit("base");
    reveal_strlit("small");
    assert(catalog()[0].id[0] == 't');
    assert(catalog()[1].id[0] == 'b');
    assert(catalog()[2].id[0] == 's');
}

/// Looking up the id of a model of the catalog finds that very model.
pub proof fn lemma_find_catalog_entry(i: int)
    requires
        0 <= i < catalog().len(),
    ensures
        find_in(catalog(), catalog()[i].id) == Some(catalog()[i]),
{
    let c = catalog();
    let id = c[i].id;
    reveal_with_fuel(find_in, 4);
    if i > 0 {
        lemma_catalog_ids_distinct(0, i);
        assert(c.drop_first()[0] == c[1]);
        if i > 1 {
            lemma_catalog_ids_distinct(1, i);
            assert(c.drop_first().drop_first()[0] == c[2]);
        }
    }
}

/// A lookup fails exactly for the ids that no model of the catalog has.
pub proof fn lemma_find_unknown(id: Seq<char>)
    ensures
        find_in(catalog(), id) is None <==> (forall|i: int|
            0 <= i < catalog().len() ==> #[trigger] catalog()[i].id != id),
{
    let c = catalog();
    reveal_with_fuel(find_in, 4);
    assert(c.drop_first()[0] == c[1]);
    assert(c.drop_first().drop_first()[0] == c[2]);
    assert(c.drop_first().drop_first().drop_first().len() == 0);
    if find_in(c, id) is None {
        assert(c[0].id != id);
        assert(c[1].id != id);
        assert(c[2].id != id);
    }
}

/// Every chunk is counted: after a run of chunks the count has grown by their
/// total length, the counters stay consistent, and the last reported count
/// never moves backwards.
pub proof fn lemma_chunks_counted(s: TrackerState, chunks: Seq<nat>)
    requires
        consistent(s),
    ensures
        after_chunks(s, chunks).downloaded == s.downloaded + total_len(chunks),
        consistent(after_chunks(s, chunks)),
        after_chunks(s, chunks).last_report >= s.last_report,
        after_chunks(s, chunks).total == s.total,
    decreases chunks.len(),
{
    if chunks.len() > 0 {
        lemma_chunks_counted(s, chunks.drop_last());
    }
}

/// The chunk that completes the announced size is always reported.
pub proof fn lemma_completion_reported(s: TrackerState, len: int)
    requires
        s.downloaded + len == s.total,
    ensures
        reports(s, s.downloaded + len),
        after_chunk(s, len).last_report == s.total,
{
}

} // verus!
