//! The per-image pipeline and the batch coordinator.
//!
//! One image runs through decode, text recognition and the field
//! parser; every failure mode folds into an identifier-only outcome.
//! A batch fans its images out across a worker pool and aggregates the
//! collected outcomes into two lists, placing every input identifier in
//! exactly one of them.

use vstd::prelude::*;
use vstd::seq_lib::lemma_multiset_commutative;

use ocrs::TextItem;
use rayon::iter::{IntoParallelIterator, ParallelIterator};

use crate::geometry::Rectangle;
use crate::parse::{find_track_number, lemma_match_numeric};
use crate::text::{numeric, RecognizedLine, KEYWORD_LEN};

verus! {

/// The identifier a caller attaches to one submitted image.
pub type Id = String;

/// One submitted image: an opaque identifier and the raw encoded bytes.
pub struct ImageFile {
    pub id: Id,
    pub bytes: Vec<u8>,
}

/// A successfully extracted tracking number: the identifier of the
/// image it came from, the 14-digit string, and the bounding box of the
/// first word of the line that carried it, when geometry was reported.
pub struct SuccessResp {
    pub id: Id,
    pub track_number: String,
    pub rect: Option<Rectangle>,
}

/// The aggregated outcome of one batch: the success records and the
/// identifiers of the images that yielded no tracking number.
pub struct ExtractResult {
    pub success: Vec<SuccessResp>,
    pub fail: Vec<Id>,
}

/// Why one image yielded no tracking number.
#[derive(Clone, Copy, PartialEq, Eq, Structural, Debug)]
pub enum ExtractError {
    /// The bytes are not valid data of the supported image encoding.
    Decode,
    /// The recognition engine rejected or failed on the decoded image.
    Recognition,
}

/// The recognition engine could not be constructed.
#[derive(Clone, Copy, PartialEq, Eq, Structural, Debug)]
pub struct EngineInitError;

/// The outcome of one image, as the coordinator aggregates it: the
/// image's identifier and the success record, when there is one.
pub struct Outcome {
    pub id: Id,
    pub found: Option<SuccessResp>,
}

/// A well-formed outcome: its success record, if any, echoes the
/// outcome's identifier and carries a numeric tracking number.
pub open spec fn outcome_consistent(o: Outcome) -> bool {
    o.found matches Some(s) ==> s.id@ == o.id@ && numeric(s.track_number@)
}

/// The identifiers of a batch's images.
pub open spec fn image_ids(images: Seq<ImageFile>) -> Seq<Seq<char>> {
    images.map_values(|f: ImageFile| f.id@)
}

/// The identifiers of a batch's outcomes.
pub open spec fn outcome_ids(os: Seq<Outcome>) -> Seq<Seq<char>> {
    os.map_values(|o: Outcome| o.id@)
}

/// The identifiers of a list of success records.
pub open spec fn success_ids(rs: Seq<SuccessResp>) -> Seq<Seq<char>> {
    rs.map_values(|s: SuccessResp| s.id@)
}

/// The identifiers of a failure list.
pub open spec fn fail_ids(fs: Seq<Id>) -> Seq<Seq<char>> {
    fs.map_values(|f: Id| f@)
}

/// The success records of a list of outcomes, in order.
pub open spec fn success_list(os: Seq<Outcome>) -> Seq<SuccessResp>
    decreases os.len(),
{
    if os.len() == 0 {
        Seq::empty()
    } else {
        let rest = success_list(os.drop_first());
        match os.first().found {
            Option::Some(s) => seq![s] + rest,
            Option::None => rest,
        }
    }
}

/// The identifiers of the failed outcomes of a list, in order.
pub open spec fn fail_list(os: Seq<Outcome>) -> Seq<Id>
    decreases os.len(),
{
    if os.len() == 0 {
        Seq::empty()
    } else {
        let rest = fail_list(os.drop_first());
        match os.first().found {
            Option::Some(_) => rest,
            Option::None => seq![os.first().id] + rest,
        }
    }
}

/// Partition completeness: as multisets, the identifiers of the success
/// records plus the failed identifiers are exactly the identifiers of
/// the outcomes — every outcome lands in one of the two lists.
pub proof fn lemma_partition_complete(os: Seq<Outcome>)
    requires
        forall|i: int| 0 <= i < os.len() ==> outcome_consistent(#[trigger] os[i]),
    ensures
        success_ids(success_list(os)).to_multiset().add(fail_ids(fail_list(os)).to_multiset())
            =~= outcome_ids(os).to_multiset(),
    decreases os.len(),
{
    broadcast use vstd::multiset::group_multiset_axioms;

    if os.len() == 0 {
        assert(success_ids(success_list(os)) =~= Seq::<Seq<char>>::empty());
        assert(fail_ids(fail_list(os)) =~= Seq::<Seq<char>>::empty());
        assert(outcome_ids(os) =~= Seq::<Seq<char>>::empty());
        Seq::<Seq<char>>::empty().to_multiset_ensures();
    } else {
        let o = os.first();
        let rest = os.drop_first();
        assert(forall|i: int|
            0 <= i < rest.len() ==> outcome_consistent(#[trigger] rest[i])) by {
            assert(forall|i: int| 0 <= i < rest.len() ==> rest[i] == os[i + 1]);
        }
        lemma_partition_complete(rest);
        assert(outcome_ids(os) =~= seq![o.id@] + outcome_ids(rest));
        lemma_multiset_commutative(seq![o.id@], outcome_ids(rest));
        match o.found {
            Option::Some(s) => {
                assert(success_list(os) == seq![s] + success_list(rest));
                assert(success_ids(seq![s] + success_list(rest)) =~= seq![s.id@] + success_ids(
                    success_list(rest),
                ));
                lemma_multiset_commutative(seq![s.id@], success_ids(success_list(rest)));
                assert(outcome_consistent(os[0]));
                assert(s.id@ == o.id@);
                assert(fail_list(os) == fail_list(rest));
            },
            Option::None => {
                assert(fail_list(os) == seq![o.id] + fail_list(rest));
                assert(fail_ids(seq![o.id] + fail_list(rest)) =~= seq![o.id@] + fail_ids(
                    fail_list(rest),
                ));
                lemma_multiset_commutative(seq![o.id@], fail_ids(fail_list(rest)));
                assert(success_list(os) == success_list(rest));
            },
        }
    }
}

/// Every success record in the aggregation of well-formed outcomes
/// carries a numeric tracking number.
pub proof fn lemma_success_records_numeric(os: Seq<Outcome>)
    requires
        forall|i: int| 0 <= i < os.len() ==> outcome_consistent(#[trigger] os[i]),
    ensures
        forall|k: int|
            0 <= k < success_list(os).len() ==> numeric(
                #[trigger] success_list(os)[k].track_number@,
            ),
    decreases os.len(),
{
    if os.len() > 0 {
        let rest = os.drop_first();
        assert(forall|i: int|
            0 <= i < rest.len() ==> outcome_consistent(#[trigger] rest[i])) by {
            assert(forall|i: int| 0 <= i < rest.len() ==> rest[i] == os[i + 1]);
        }
        lemma_success_records_numeric(rest);
        assert(outcome_consistent(os[0]));
    }
}

/// Disjointness: when the outcome identifiers are pairwise distinct, no
/// identifier appears in both output lists.
pub proof fn lemma_partition_disjoint(os: Seq<Outcome>)
    requires
        forall|i: int| 0 <= i < os.len() ==> outcome_consistent(#[trigger] os[i]),
        outcome_ids(os).no_duplicates(),
    ensures
        forall|x: Seq<char>|
            !(#[trigger] success_ids(success_list(os)).contains(x) && fail_ids(
                fail_list(os),
            ).contains(x)),
{
    broadcast use vstd::multiset::group_multiset_axioms;

    lemma_partition_complete(os);
    outcome_ids(os).lemma_multiset_has_no_duplicates();
    let sm = success_ids(success_list(os)).to_multiset();
    let fm = fail_ids(fail_list(os)).to_multiset();
    assert forall|x: Seq<char>|
        !(#[trigger] success_ids(success_list(os)).contains(x) && fail_ids(
            fail_list(os),
        ).contains(x)) by {
        success_ids(success_list(os)).to_multiset_ensures();
        fail_ids(fail_list(os)).to_multiset_ensures();
        if success_ids(success_list(os)).contains(x) && fail_ids(fail_list(os)).contains(x) {
            assert(sm.count(x) >= 1 && fm.count(x) >= 1);
            assert(sm.add(fm).count(x) >= 2);
            assert(outcome_ids(os).to_multiset().contains(x));
            assert(outcome_ids(os).to_multiset().count(x) == 1);
            assert(false);
        }
    }
}

/// The aggregation is a function of the collected outcomes alone: it
/// does not depend on worker count or on the order in which workers
/// finish.
pub proof fn lemma_aggregation_deterministic(
    os: Seq<Outcome>,
    s1: Seq<SuccessResp>,
    f1: Seq<Id>,
    s2: Seq<SuccessResp>,
    f2: Seq<Id>,
)
    requires
        s1 == success_list(os),
        f1 == fail_list(os),
        s2 == success_list(os),
        f2 == fail_list(os),
    ensures
        s1 == s2,
        f1 == f2,
{
}

#[verifier::external_type_specification]
#[verifier::external_body]
pub struct ExOcrEngine(ocrs::OcrEngine);

#[verifier::external_type_specification]
#[verifier::external_body]
pub struct ExOcrInput(ocrs::OcrInput);

#[verifier::external_type_specification]
#[verifier::external_body]
pub struct ExModel(rten::Model);

/// The batch extraction engine: a handle to the text-recognition
/// engine, initialized once and shared read-only by all workers.
pub struct Extracter {
    engine: ocrs::OcrEngine,
}

/// Relies on ocrs::OcrEngine::new: builds an engine from the given
/// detection and recognition models; Err when construction fails.
#[verifier::external_body]
fn build_engine(detection: Option<rten::Model>, recognition: Option<rten::Model>) -> (r: Result<
    ocrs::OcrEngine,
    EngineInitError,
>) {
    ocrs::OcrEngine::new(
        ocrs::OcrEngineParams {
            detection_model: detection,
            recognition_model: recognition,
            ..Default::default()
        },
    ).map_err(|_| EngineInitError)
}

/// Relies on image's ImageReader (JPEG decode to 8-bit RGB) and on
/// ocrs::ImageSource::from_bytes with ocrs::OcrEngine::prepare_input,
/// which turn the decoded pixels into the engine's input tensor.
#[verifier::external_body]
fn prepare_ocr_input(engine: &ocrs::OcrEngine, bytes: &Vec<u8>) -> (r: Result<
    ocrs::OcrInput,
    ExtractError,
>) {
    let mut reader = image::ImageReader::new(std::io::Cursor::new(bytes));
    reader.set_format(image::ImageFormat::Jpeg);
    let img = reader.decode().map_err(|_| ExtractError::Decode)?.into_rgb8();
    let source = ocrs::ImageSource::from_bytes(img.as_raw(), img.dimensions()).map_err(
        |_| ExtractError::Recognition,
    )?;
    engine.prepare_input(source).map_err(|_| ExtractError::Recognition)
}

/// Relies on ocrs::OcrEngine::detect_words, find_text_lines and
/// recognize_text: the recognized lines come back in the engine's
/// reading order, each with its text and per-word bounding geometry,
/// converted here to the crate's plain line type.
#[verifier::external_body]
fn recognize_lines(engine: &ocrs::OcrEngine, input: &ocrs::OcrInput) -> (r: Result<
    Vec<RecognizedLine>,
    ExtractError,
>) {
    let words = engine.detect_words(input).map_err(|_| ExtractError::Recognition)?;
    let line_rects = engine.find_text_lines(input, &words);
    let texts = engine.recognize_text(input, &line_rects).map_err(|_| ExtractError::Recognition)?;
    Ok(texts.into_iter().flatten().map(|line| RecognizedLine {
        text: line.to_string(),
        words: line.words().map(|w| { let b = w.bounding_rect(); Rectangle::of(
            b.top_left().x as usize, b.top_left().y as usize,
            b.bottom_right().x as usize, b.bottom_right().y as usize) }).collect(),
    }).collect())
}

/// Relies on rayon's into_par_iter/map/collect: the collected vector
/// has one element per input, in input order. The per-element facts are
/// the contract of `Extracter::extract_outcome`, which the mapped
/// closure calls.
#[verifier::external_body]
fn par_outcomes(ex: &Extracter, images: Vec<ImageFile>) -> (r: Vec<Outcome>)
    ensures
        r@.len() == images@.len(),
        forall|i: int|
            0 <= i < r@.len() ==> (#[trigger] r@[i]).id@ == images@[i].id@ && outcome_consistent(
                r@[i],
            ),
{
    images.into_par_iter().map(|file| ex.extract_outcome(file)).collect()
}

impl Extracter {
    /// Builds the extraction engine from already-loaded model data.
    /// Failure to construct the engine is a fatal startup condition,
    /// reported once here and not per batch.
    pub fn new(detection: Option<rten::Model>, recognition: Option<rten::Model>) -> (r: Result<
        Extracter,
        EngineInitError,
    >) {
        match build_engine(detection, recognition) {
            Ok(engine) => Ok(Extracter { engine }),
            Err(e) => Err(e),
        }
    }

    /// Decodes one image, recognizes its text lines and runs the field
    /// parser: `Ok(Some)` carries the extracted record, `Ok(None)` a
    /// recognized image without a valid field, `Err` a decode or
    /// recognition failure.
    pub fn extract_per_image(&self, file: ImageFile) -> (r: Result<
        Option<SuccessResp>,
        ExtractError,
    >)
        ensures
            r matches Ok(Some(s)) ==> s.id@ == file.id@ && numeric(s.track_number@)
                && s.track_number@.len() >= KEYWORD_LEN,
    {
        let input = match prepare_ocr_input(&self.engine, &file.bytes) {
            Ok(v) => v,
            Err(e) => {
                return Err(e);
            },
        };
        let lines = match recognize_lines(&self.engine, &input) {
            Ok(v) => v,
            Err(e) => {
                return Err(e);
            },
        };
        match find_track_number(&lines) {
            Some(m) => {
                proof {
                    lemma_match_numeric(lines@, 0, false);
                }
                Ok(Some(SuccessResp { id: file.id, track_number: m.track_number, rect: m.rect }))
            },
            None => Ok(None),
        }
    }

    /// One worker's job: processes one image and folds every failure
    /// mode — decode error, recognition error, or no match — into an
    /// identifier-only outcome.
    pub fn extract_outcome(&self, file: ImageFile) -> (r: Outcome)
        ensures
            r.id@ == file.id@,
            outcome_consistent(r),
    {
        let id = file.id.clone();
        match self.extract_per_image(file) {
            Ok(Some(s)) => Outcome { id, found: Some(s) },
            Ok(None) => Outcome { id, found: None },
            Err(_) => Outcome { id, found: None },
        }
    }

    /// Processes a whole batch: fans the images out across the worker
    /// pool, collects one outcome per image, and aggregates them into
    /// the two result lists. Every input identifier appears in exactly
    /// one list, and every success record's tracking number is numeric.
    pub fn extract_track_number(&self, images: Vec<ImageFile>) -> (r: ExtractResult)
        ensures
            success_ids(r.success@).to_multiset().add(fail_ids(r.fail@).to_multiset())
                == image_ids(images@).to_multiset(),
            forall|k: int|
                0 <= k < r.success@.len() ==> numeric(#[trigger] r.success@[k].track_number@),
    {
        let outcomes = par_outcomes(self, images);
        proof {
            assert(outcome_ids(outcomes@) =~= image_ids(images@));
            lemma_partition_complete(outcomes@);
            lemma_success_records_numeric(outcomes@);
        }
        partition_outcomes(outcomes)
    }
}

/// Aggregates the per-image outcomes into the two result lists, keeping
/// their order of arrival.
pub fn partition_outcomes(outcomes: Vec<Outcome>) -> (r: ExtractResult)
    ensures
        r.success@ == success_list(outcomes@),
        r.fail@ == fail_list(outcomes@),
{
    let ghost all = outcomes@;
    let mut rest = outcomes;
    let mut success: Vec<SuccessResp> = Vec::new();
    let mut fail: Vec<Id> = Vec::new();
    while rest.len() > 0
        invariant
            success_list(all) == success@ + success_list(rest@),
            fail_list(all) == fail@ + fail_list(rest@),
        decreases rest@.len(),
    {
        let ghost prev = rest@;
        let o = rest.remove(0);
        proof {
            assert(prev.remove(0) =~= prev.drop_first());
        }
        match o.found {
            Some(s) => {
                proof {
                    assert(success@ + (seq![s] + success_list(rest@)) =~= success@.push(s)
                        + success_list(rest@));
                }
                success.push(s);
            },
            None => {
                proof {
                    assert(fail@ + (seq![o.id] + fail_list(rest@)) =~= fail@.push(o.id)
                        + fail_list(rest@));
                }
                fail.push(o.id);
            },
        }
    }
    proof {
        assert(success@ + success_list(rest@) =~= success@);
        assert(fail@ + fail_list(rest@) =~= fail@);
    }
    ExtractResult { success, fail }
}

} // verus!
