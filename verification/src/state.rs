use vstd::prelude::*;

use crate::text::{push_text, string_of};

verus! {

/// Order code of a real-valued quantity (a VMAF score, a duration, a
/// percentage): a 64-bit integer whose order is the order of the values it
/// stands for, and from which the value is recovered exactly.
pub type ScoreCode = u64;

/// Code of the value zero.
pub const ZERO_CODE: u64 = 0x8000_0000_0000_0000;

/// Where a job stands in its pipeline.
#[derive(Clone, Copy, Debug, PartialEq, Eq, Structural)]
pub enum JobStatus {
    Uploaded,
    Probing,
    /// Sample encodes of the bitrate grid.
    Analyzing,
    /// Frontier and ladder selection.
    Optimizing,
    /// Final HLS encodes.
    Encoding,
    Done,
    Failed,
}

impl JobStatus {
    /// Position of the status in the pipeline; `Failed` ends any phase.
    pub open spec fn rank(self) -> nat {
        match self {
            JobStatus::Uploaded => 0,
            JobStatus::Probing => 1,
            JobStatus::Analyzing => 2,
            JobStatus::Optimizing => 3,
            JobStatus::Encoding => 4,
            JobStatus::Done => 5,
            JobStatus::Failed => 6,
        }
    }

    /// Whether the job has stopped moving.
    pub fn is_terminal(&self) -> (r: bool)
        ensures
            r == (*self == JobStatus::Done || *self == JobStatus::Failed),
    {
        match self {
            JobStatus::Done | JobStatus::Failed => true,
            _ => false,
        }
    }
}

/// What probing a source file reports.
#[derive(Clone, Debug)]
pub struct SourceInfo {
    pub width: u32,
    pub height: u32,
    /// Duration in seconds, as an order code.
    pub duration_sec: ScoreCode,
    /// Frame rate, as an order code.
    pub fps: ScoreCode,
    pub codec: String,
}

/// One cell of the bitrate grid: a point on the rate–quality plane.
#[derive(Clone, Debug)]
pub struct DataPoint {
    /// Tier name, such as `720p`.
    pub resolution: String,
    pub width: u32,
    pub height: u32,
    pub bitrate_kbps: u32,
    /// Mean VMAF of the sample, as an order code.
    pub vmaf_mean: ScoreCode,
    pub file_size_bytes: u64,
}

impl DataPoint {
    /// A field-for-field copy.
    pub fn duplicate(&self) -> (r: Self)
        ensures
            r == *self,
    {
        DataPoint {
            resolution: self.resolution.clone(),
            width: self.width,
            height: self.height,
            bitrate_kbps: self.bitrate_kbps,
            vmaf_mean: self.vmaf_mean,
            file_size_bytes: self.file_size_bytes,
        }
    }
}

/// A rung of a ladder.
#[derive(Clone, Debug)]
pub struct Rendition {
    /// Tier name, such as `720p`.
    pub name: String,
    pub width: u32,
    pub height: u32,
    pub bitrate_kbps: u32,
    /// Mean VMAF at this rung, as an order code.
    pub vmaf_mean: ScoreCode,
}

/// A rung as a mathematical value: its name as a character sequence.
pub struct RenditionView {
    pub name: Seq<char>,
    pub width: u32,
    pub height: u32,
    pub bitrate_kbps: u32,
    pub vmaf_mean: ScoreCode,
}

impl View for Rendition {
    type V = RenditionView;

    open spec fn view(&self) -> RenditionView {
        RenditionView {
            name: self.name@,
            width: self.width,
            height: self.height,
            bitrate_kbps: self.bitrate_kbps,
            vmaf_mean: self.vmaf_mean,
        }
    }
}

/// The views of a sequence of rungs.
pub open spec fn rung_views(s: Seq<Rendition>) -> Seq<RenditionView> {
    s.map_values(|r: Rendition| r@)
}

impl Rendition {
    /// A field-for-field copy.
    pub fn duplicate(&self) -> (r: Self)
        ensures
            r == *self,
    {
        Rendition {
            name: self.name.clone(),
            width: self.width,
            height: self.height,
            bitrate_kbps: self.bitrate_kbps,
            vmaf_mean: self.vmaf_mean,
        }
    }
}


/// Field-for-field copy of a sequence of rungs.
pub fn duplicate_rungs(v: &Vec<Rendition>) -> (r: Vec<Rendition>)
    ensures
        r@ == v@,
{
    let mut r: Vec<Rendition> = Vec::new();
    let mut i: usize = 0;
    while i < v.len()
        invariant
            i <= v@.len(),
            r@ == v@.take(i as int),
        decreases v@.len() - i,
    {
        r.push(v[i].duplicate());
        proof {
            assert(v@.take(i + 1) == v@.take(i as int).push(v@[i as int]));
        }
        i = i + 1;
    }
    proof {
        assert(v@.take(v@.len() as int) == v@);
    }
    r
}

/// Field-for-field copy of a sequence of strings.
pub fn duplicate_strings(v: &Vec<String>) -> (r: Vec<String>)
    ensures
        r@ == v@,
{
    let mut r: Vec<String> = Vec::new();
    let mut i: usize = 0;
    while i < v.len()
        invariant
            i <= v@.len(),
            r@ == v@.take(i as int),
        decreases v@.len() - i,
    {
        r.push(v[i].clone());
        proof {
            assert(v@.take(i + 1) == v@.take(i as int).push(v@[i as int]));
        }
        i = i + 1;
    }
    proof {
        assert(v@.take(v@.len() as int) == v@);
    }
    r
}

impl SourceInfo {
    /// A field-for-field copy.
    pub fn duplicate(&self) -> (r: Self)
        ensures
            r == *self,
    {
        SourceInfo {
            width: self.width,
            height: self.height,
            duration_sec: self.duration_sec,
            fps: self.fps,
            codec: self.codec.clone(),
        }
    }
}

/// A per-title rung set against its fixed-ladder counterpart.
#[derive(Clone, Debug)]
pub struct RungComparison {
    pub resolution: String,
    pub reference_bitrate_kbps: u32,
    pub optimized_bitrate_kbps: u32,
    pub bitrate_saved_pct: ScoreCode,
    pub vmaf_optimized: ScoreCode,
    pub vmaf_reference_est: ScoreCode,
}

impl RungComparison {
    /// A field-for-field copy.
    pub fn duplicate(&self) -> (r: Self)
        ensures
            r == *self,
    {
        RungComparison {
            resolution: self.resolution.clone(),
            reference_bitrate_kbps: self.reference_bitrate_kbps,
            optimized_bitrate_kbps: self.optimized_bitrate_kbps,
            bitrate_saved_pct: self.bitrate_saved_pct,
            vmaf_optimized: self.vmaf_optimized,
            vmaf_reference_est: self.vmaf_reference_est,
        }
    }
}

/// Per-title vs fixed-ladder comparison of a title.
#[derive(Clone, Debug)]
pub struct TitleInsights {
    pub reference_ladder: Vec<Rendition>,
    pub reference_avg_bitrate_kbps: u32,
    pub optimized_avg_bitrate_kbps: u32,
    pub bandwidth_savings_pct: ScoreCode,
    pub mean_vmaf_optimized: ScoreCode,
    pub mean_vmaf_reference_est: ScoreCode,
    pub delivery_per_hour_reference_mb: ScoreCode,
    pub delivery_per_hour_optimized_mb: ScoreCode,
    pub delivery_title_reference_mb: ScoreCode,
    pub delivery_title_optimized_mb: ScoreCode,
    pub encode_analysis_passes: u32,
    pub encode_final_renditions: u32,
    pub encode_reference_renditions: u32,
    pub per_title_overhead_pct: ScoreCode,
    pub rung_comparisons: Vec<RungComparison>,
    pub advantages: Vec<String>,
    pub disadvantages: Vec<String>,
}

/// Insights as a mathematical value: sequences in place of vectors.
pub struct TitleInsightsView {
    pub reference_ladder: Seq<Rendition>,
    pub reference_avg_bitrate_kbps: u32,
    pub optimized_avg_bitrate_kbps: u32,
    pub bandwidth_savings_pct: ScoreCode,
    pub mean_vmaf_optimized: ScoreCode,
    pub mean_vmaf_reference_est: ScoreCode,
    pub delivery_per_hour_reference_mb: ScoreCode,
    pub delivery_per_hour_optimized_mb: ScoreCode,
    pub delivery_title_reference_mb: ScoreCode,
    pub delivery_title_optimized_mb: ScoreCode,
    pub encode_analysis_passes: u32,
    pub encode_final_renditions: u32,
    pub encode_reference_renditions: u32,
    pub per_title_overhead_pct: ScoreCode,
    pub rung_comparisons: Seq<RungComparison>,
    pub advantages: Seq<String>,
    pub disadvantages: Seq<String>,
}

impl View for TitleInsights {
    type V = TitleInsightsView;

    open spec fn view(&self) -> TitleInsightsView {
        TitleInsightsView {
            reference_ladder: self.reference_ladder@,
            reference_avg_bitrate_kbps: self.reference_avg_bitrate_kbps,
            optimized_avg_bitrate_kbps: self.optimized_avg_bitrate_kbps,
            bandwidth_savings_pct: self.bandwidth_savings_pct,
            mean_vmaf_optimized: self.mean_vmaf_optimized,
            mean_vmaf_reference_est: self.mean_vmaf_reference_est,
            delivery_per_hour_reference_mb: self.delivery_per_hour_reference_mb,
            delivery_per_hour_optimized_mb: self.delivery_per_hour_optimized_mb,
            delivery_title_reference_mb: self.delivery_title_reference_mb,
            delivery_title_optimized_mb: self.delivery_title_optimized_mb,
            encode_analysis_passes: self.encode_analysis_passes,
            encode_final_renditions: self.encode_final_renditions,
            encode_reference_renditions: self.encode_reference_renditions,
            per_title_overhead_pct: self.per_title_overhead_pct,
            rung_comparisons: self.rung_comparisons@,
            advantages: self.advantages@,
            disadvantages: self.disadvantages@,
        }
    }
}

impl TitleInsights {
    /// A field-for-field copy.
    pub fn duplicate(&self) -> (r: Self)
        ensures
            r@ == self@,
    {
        let mut comparisons: Vec<RungComparison> = Vec::new();
        let mut i: usize = 0;
        while i < self.rung_comparisons.len()
            invariant
                i <= self.rung_comparisons@.len(),
                comparisons@ == self.rung_comparisons@.take(i as int),
            decreases self.rung_comparisons@.len() - i,
        {
            comparisons.push(self.rung_comparisons[i].duplicate());
            proof {
                assert(self.rung_comparisons@.take(i + 1) == self.rung_comparisons@.take(i as int).push(
                    self.rung_comparisons@[i as int],
                ));
            }
            i = i + 1;
        }
        proof {
            assert(self.rung_comparisons@.take(self.rung_comparisons@.len() as int)
                == self.rung_comparisons@);
        }
        TitleInsights {
            reference_ladder: duplicate_rungs(&self.reference_ladder),
            reference_avg_bitrate_kbps: self.reference_avg_bitrate_kbps,
            optimized_avg_bitrate_kbps: self.optimized_avg_bitrate_kbps,
            bandwidth_savings_pct: self.bandwidth_savings_pct,
            mean_vmaf_optimized: self.mean_vmaf_optimized,
            mean_vmaf_reference_est: self.mean_vmaf_reference_est,
            delivery_per_hour_reference_mb: self.delivery_per_hour_reference_mb,
            delivery_per_hour_optimized_mb: self.delivery_per_hour_optimized_mb,
            delivery_title_reference_mb: self.delivery_title_reference_mb,
            delivery_title_optimized_mb: self.delivery_title_optimized_mb,
            encode_analysis_passes: self.encode_analysis_passes,
            encode_final_renditions: self.encode_final_renditions,
            encode_reference_renditions: self.encode_reference_renditions,
            per_title_overhead_pct: self.per_title_overhead_pct,
            rung_comparisons: comparisons,
            advantages: duplicate_strings(&self.advantages),
            disadvantages: duplicate_strings(&self.disadvantages),
        }
    }
}

/// Event broadcast to everyone following a job.
#[derive(Clone, Debug)]
pub enum JobEvent {
    StatusChanged { status: JobStatus },
    AnalysisPoint { point: DataPoint },
    LadderChosen { ladder: Vec<Rendition> },
    InsightsReady { insights: TitleInsights },
    /// `percent` is an order code.
    EncodeProgress { rendition: String, percent: ScoreCode },
    Done,
    Error { message: String },
}

/// One running or finished job.
#[derive(Clone, Debug)]
pub struct Job {
    pub id: String,
    pub filename: String,
    pub source_path: String,
    pub output_dir: String,
    pub status: JobStatus,
    /// Unix seconds, for history ordering.
    pub created_at: u64,
    pub source_info: Option<SourceInfo>,
    /// Rate–quality samples (resolution × bitrate), in the order they finished.
    pub analysis_points: Vec<DataPoint>,
    /// Per-title ladder, one rung per resolution.
    pub chosen_ladder: Vec<Rendition>,
    pub insights: Option<TitleInsights>,
    pub error: Option<String>,
}

/// A job as a mathematical value: sequences in place of vectors.
pub struct JobView {
    pub id: Seq<char>,
    pub filename: Seq<char>,
    pub source_path: Seq<char>,
    pub output_dir: Seq<char>,
    pub status: JobStatus,
    pub created_at: u64,
    pub source_info: Option<SourceInfo>,
    pub analysis_points: Seq<DataPoint>,
    pub chosen_ladder: Seq<Rendition>,
    pub insights: Option<TitleInsightsView>,
    pub error: Option<Seq<char>>,
}

impl View for Job {
    type V = JobView;

    open spec fn view(&self) -> JobView {
        JobView {
            id: self.id@,
            filename: self.filename@,
            source_path: self.source_path@,
            output_dir: self.output_dir@,
            status: self.status,
            created_at: self.created_at,
            source_info: self.source_info,
            analysis_points: self.analysis_points@,
            chosen_ladder: self.chosen_ladder@,
            insights: match self.insights {
                Some(i) => Some(i@),
                None => None,
            },
            error: match self.error {
                Some(e) => Some(e@),
                None => None,
            },
        }
    }
}

/// The status that follows `s` when its phase completes; `Done` and `Failed` stay.
pub open spec fn following_status(s: JobStatus) -> JobStatus {
    match s {
        JobStatus::Uploaded => JobStatus::Probing,
        JobStatus::Probing => JobStatus::Analyzing,
        JobStatus::Analyzing => JobStatus::Optimizing,
        JobStatus::Optimizing => JobStatus::Encoding,
        JobStatus::Encoding => JobStatus::Done,
        JobStatus::Done => JobStatus::Done,
        JobStatus::Failed => JobStatus::Failed,
    }
}

/// Where the upload of job `id` named `filename` is stored.
pub open spec fn upload_path(id: Seq<char>, filename: Seq<char>) -> Seq<char> {
    "uploads/"@ + id + "_"@ + filename
}

/// Where the renditions of job `id` are written.
pub open spec fn output_path(id: Seq<char>) -> Seq<char> {
    "output/"@ + id
}

impl Job {
    /// A freshly uploaded job: status `Uploaded`, nothing measured yet.
    pub fn new(id: String, filename: String, created_at: u64) -> (job: Job)
        ensures
            job@.id == id@,
            job@.filename == filename@,
            job@.source_path == upload_path(id@, filename@),
            job@.output_dir == output_path(id@),
            job@.status == JobStatus::Uploaded,
            job@.created_at == created_at,
            job@.source_info is None,
            job@.analysis_points == Seq::<DataPoint>::empty(),
            job@.chosen_ladder == Seq::<Rendition>::empty(),
            job@.insights is None,
            job@.error is None,
    {
        let mut source_path = string_of("uploads/");
        push_text(&mut source_path, id.as_str());
        push_text(&mut source_path, "_");
        push_text(&mut source_path, filename.as_str());
        let mut output_dir = string_of("output/");
        push_text(&mut output_dir, id.as_str());
        Job {
            id,
            filename,
            source_path,
            output_dir,
            status: JobStatus::Uploaded,
            created_at,
            source_info: None,
            analysis_points: Vec::new(),
            chosen_ladder: Vec::new(),
            insights: None,
            error: None,
        }
    }

    /// Records a new status; the event announces it.
    pub fn set_status(&mut self, status: JobStatus) -> (e: JobEvent)
        ensures
            final(self)@ == (JobView { status, ..old(self)@ }),
            e == (JobEvent::StatusChanged { status }),
    {
        self.status = status;
        JobEvent::StatusChanged { status }
    }

    /// Moves the job to the status that follows its current one.
    pub fn advance(&mut self) -> (e: JobEvent)
        ensures
            final(self)@ == (JobView { status: following_status(old(self).status), ..old(self)@ }),
            e == (JobEvent::StatusChanged { status: following_status(old(self).status) }),
    {
        let next = match self.status {
            JobStatus::Uploaded => JobStatus::Probing,
            JobStatus::Probing => JobStatus::Analyzing,
            JobStatus::Analyzing => JobStatus::Optimizing,
            JobStatus::Optimizing => JobStatus::Encoding,
            JobStatus::Encoding => JobStatus::Done,
            JobStatus::Done => JobStatus::Done,
            JobStatus::Failed => JobStatus::Failed,
        };
        self.set_status(next)
    }

    /// Records what probing the source found.
    pub fn record_source_info(&mut self, info: SourceInfo)
        ensures
            final(self)@ == (JobView { source_info: Some(info), ..old(self)@ }),
    {
        self.source_info = Some(info);
    }

    /// Appends a measured sample; the event carries it.
    pub fn record_analysis_point(&mut self, point: DataPoint) -> (e: JobEvent)
        ensures
            final(self)@ == (JobView {
                analysis_points: old(self)@.analysis_points.push(point),
                ..old(self)@
            }),
            e == (JobEvent::AnalysisPoint { point }),
    {
        let copy = point.duplicate();
        self.analysis_points.push(point);
        JobEvent::AnalysisPoint { point: copy }
    }

    /// Records the chosen ladder; the event carries a copy.
    pub fn record_ladder(&mut self, ladder: Vec<Rendition>) -> (e: JobEvent)
        ensures
            final(self)@ == (JobView { chosen_ladder: ladder@, ..old(self)@ }),
            e matches JobEvent::LadderChosen { ladder: l } && l@ == ladder@,
    {
        let copy = duplicate_rungs(&ladder);
        self.chosen_ladder = ladder;
        JobEvent::LadderChosen { ladder: copy }
    }

    /// Records the insights; the event carries a copy.
    pub fn record_insights(&mut self, insights: TitleInsights) -> (e: JobEvent)
        ensures
            final(self)@ == (JobView { insights: Some(insights@), ..old(self)@ }),
            e matches JobEvent::InsightsReady { insights: i } && i@ == insights@,
    {
        let copy = insights.duplicate();
        self.insights = Some(insights);
        JobEvent::InsightsReady { insights: copy }
    }

    /// Marks the job failed with `message`; the event carries the message.
    pub fn fail(&mut self, message: String) -> (e: JobEvent)
        ensures
            final(self)@ == (JobView {
                status: JobStatus::Failed,
                error: Some(message@),
                ..old(self)@
            }),
            e matches JobEvent::Error { message: m } && m@ == message@,
    {
        let copy = message.clone();
        self.status = JobStatus::Failed;
        self.error = Some(message);
        JobEvent::Error { message: copy }
    }
}

/// Law: a job's status never moves back. Completing a phase moves it one step
/// along Uploaded, Probing, Analyzing, Optimizing, Encoding, Done (and leaves
/// Done and Failed where they are); failing moves it to Failed, past every phase.
pub proof fn lemma_status_moves_forward(s: JobStatus)
    ensures
        following_status(s).rank() >= s.rank(),
        s != JobStatus::Done && s != JobStatus::Failed ==> following_status(s).rank() == s.rank() + 1,
        JobStatus::Failed.rank() >= s.rank(),
{
}

} // verus!
