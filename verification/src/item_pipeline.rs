//! Item pipelines: stages that each item passes through in order, any of
//! which may transform it or drop it.
use crate::download_middleware::lemma_drop_first_shifts;
use crate::items::{json_object_keys, keys_view, parse_json_object_keys, ItemBox};
use crate::request::str_eq;
use vstd::prelude::*;
use vstd::string::StringExecFns;

verus! {

/// Why a pipeline stage failed.
#[derive(Debug)]
pub enum PipelineError {
    /// The item is dropped, with the reason.
    Drop(String),
    /// Any other failure, with its message.
    Other(String),
}

/// What a pipeline stage did with an item.
#[derive(Debug)]
pub enum PipelineOutcome {
    /// Go on to the next stage with this (possibly transformed) item.
    Continue(ItemBox),
    /// Drop the item, with the reason.
    Drop(String),
}

/// A pipeline stage.
///
/// An implementation states through `opens`, `processes` and `closes` what
/// each method may answer (one that does not say may answer anything); the
/// manager's contracts are written over them.
/// (The methods have no provided bodies: a body shared by every stage could
/// not meet a contract that says what each one answers.  A stage with
/// nothing to set up or tear down returns `Ok(())` from `open` and `close`.)
pub trait Pipeline: Send + Sync {
    /// Whether `open` may answer `r`.
    open spec fn opens(&self, r: Result<(), PipelineError>) -> bool {
        true
    }

    /// Whether `process` may answer `r` to the item.
    open spec fn processes(&self, item: ItemBox, r: Result<PipelineOutcome, PipelineError>) -> bool {
        true
    }

    /// Whether `close` may answer `r`.
    open spec fn closes(&self, r: Result<(), PipelineError>) -> bool {
        true
    }

    /// Called once before items start flowing.
    fn open(&self) -> (r: Result<(), PipelineError>)
        ensures
            self.opens(r),
    ;

    /// Processes one item.
    fn process(&self, item: ItemBox) -> (r: Result<PipelineOutcome, PipelineError>)
        ensures
            self.processes(item, r),
    ;

    /// Called once when shutting down.
    fn close(&self) -> (r: Result<(), PipelineError>)
        ensures
            self.closes(r),
    ;
}

/// Where an item goes after one stage: on to the next stage, or out of the
/// pipelines with the manager's result.
pub enum StageStep {
    Next(ItemBox),
    Finish(Result<Option<ItemBox>, PipelineError>),
}

/// The manager's rule for one stage's result: a transformed item goes on, a
/// dropped item leaves as `Ok(None)`, an error leaves as it is.
pub fn after_stage(outcome: Result<PipelineOutcome, PipelineError>) -> (r: StageStep)
    ensures
        outcome matches Ok(PipelineOutcome::Continue(i)) ==> r == StageStep::Next(i),
        outcome matches Ok(PipelineOutcome::Drop(_)) ==> r == StageStep::Finish(Ok(None)),
        outcome matches Err(e) ==> r == StageStep::Finish(Err(e)),
{
    match outcome {
        Ok(PipelineOutcome::Continue(next)) => StageStep::Next(next),
        Ok(PipelineOutcome::Drop(_why)) => StageStep::Finish(Ok(None)),
        Err(e) => StageStep::Finish(Err(e)),
    }
}

/// Runs items through a sequence of pipelines.
pub struct PipelineManager {
    pipes: Vec<Box<dyn Pipeline>>,
}

/// What opening (or, with `closing`, closing) the stages from the one at
/// `i` on may answer: `Ok` past the last stage; otherwise an answer of the
/// stage at `i`, where `Ok` goes on to the next stage and an error is the
/// answer.
pub open spec fn stages_answer(stages: Seq<Box<dyn Pipeline>>, i: int, closing: bool, r: Result<(), PipelineError>) -> bool
    decreases stages.len() - i,
{
    if i >= stages.len() {
        r == Ok::<(), PipelineError>(())
    } else {
        exists|x: Result<(), PipelineError>|
            #[trigger] stage_answers(stages, i, closing, x) && match x {
                Ok(_) => stages_answer(stages, i + 1, closing, r),
                Err(e) => r == Err::<(), PipelineError>(e),
            }
    }
}

/// Whether the `open` (or, with `closing`, `close`) of the stage at `i`
/// may answer `x`.
pub open spec fn stage_answers(stages: Seq<Box<dyn Pipeline>>, i: int, closing: bool, x: Result<(), PipelineError>) -> bool {
    if closing {
        stages[i].closes(x)
    } else {
        stages[i].opens(x)
    }
}

/// What the stages from the one at `i` on may make of the item: past the
/// last stage, the item; otherwise an answer of the stage at `i`, where a
/// transformed item goes on to the next stage, a dropped item gives
/// `Ok(None)`, and an error is the answer.
pub open spec fn stages_process(
    stages: Seq<Box<dyn Pipeline>>,
    i: int,
    item: ItemBox,
    r: Result<Option<ItemBox>, PipelineError>,
) -> bool
    decreases stages.len() - i,
{
    if i >= stages.len() {
        r == Ok::<Option<ItemBox>, PipelineError>(Some(item))
    } else {
        exists|x: Result<PipelineOutcome, PipelineError>|
            #[trigger] stages[i].processes(item, x) && match x {
                Ok(PipelineOutcome::Continue(next)) => stages_process(stages, i + 1, next, r),
                Ok(PipelineOutcome::Drop(_)) => r == Ok::<Option<ItemBox>, PipelineError>(None),
                Err(e) => r == Err::<Option<ItemBox>, PipelineError>(e),
            }
    }
}

/// The stages from the one at `i + 1` make of an item what the stages
/// without the first make of it from `i`.
proof fn lemma_stages_process_shift(
    stages: Seq<Box<dyn Pipeline>>,
    i: int,
    item: ItemBox,
    r: Result<Option<ItemBox>, PipelineError>,
)
    requires
        stages.len() > 0,
        0 <= i,
    ensures
        stages_process(stages, i + 1, item, r) == stages_process(stages.drop_first(), i, item, r),
    decreases stages.len() - i,
{
    lemma_drop_first_shifts(stages);
    let rest = stages.drop_first();
    if i + 1 < stages.len() {
        assert(rest[i] == stages[i + 1]);
        assert forall|x: Result<PipelineOutcome, PipelineError>|
            (#[trigger] stages[i + 1].processes(item, x) && match x {
                Ok(PipelineOutcome::Continue(next)) => stages_process(stages, i + 2, next, r),
                Ok(PipelineOutcome::Drop(_)) => r == Ok::<Option<ItemBox>, PipelineError>(None),
                Err(e) => r == Err::<Option<ItemBox>, PipelineError>(e),
            }) == (rest[i].processes(item, x) && match x {
                Ok(PipelineOutcome::Continue(next)) => stages_process(rest, i + 1, next, r),
                Ok(PipelineOutcome::Drop(_)) => r == Ok::<Option<ItemBox>, PipelineError>(None),
                Err(e) => r == Err::<Option<ItemBox>, PipelineError>(e),
            }) by {
            if let Ok(PipelineOutcome::Continue(next)) = x {
                lemma_stages_process_shift(stages, i + 1, next, r);
            }
        }
    }
}

/// Law: the stage given first gets the item first.  What the stages make
/// of an item is what the first stage answers: a dropped item gives
/// `Ok(None)`, an error is the answer, and a transformed item goes to the
/// rest of the stages, in the order they were given.
pub proof fn lemma_first_stage_first(
    stages: Seq<Box<dyn Pipeline>>,
    item: ItemBox,
    r: Result<Option<ItemBox>, PipelineError>,
)
    requires
        stages.len() > 0,
    ensures
        stages_process(stages, 0, item, r) <==> exists|x: Result<PipelineOutcome, PipelineError>|
            #[trigger] stages[0].processes(item, x) && match x {
                Ok(PipelineOutcome::Continue(next)) => stages_process(stages.drop_first(), 0, next, r),
                Ok(PipelineOutcome::Drop(_)) => r == Ok::<Option<ItemBox>, PipelineError>(None),
                Err(e) => r == Err::<Option<ItemBox>, PipelineError>(e),
            },
{
    let rest = stages.drop_first();
    assert forall|next: ItemBox| #[trigger] stages_process(stages, 1, next, r) == stages_process(rest, 0, next, r) by {
        lemma_stages_process_shift(stages, 0, next, r);
    }
    if stages_process(stages, 0, item, r) {
        let x = choose|x: Result<PipelineOutcome, PipelineError>|
            #[trigger] stages[0].processes(item, x) && match x {
                Ok(PipelineOutcome::Continue(next)) => stages_process(stages, 1, next, r),
                Ok(PipelineOutcome::Drop(_)) => r == Ok::<Option<ItemBox>, PipelineError>(None),
                Err(e) => r == Err::<Option<ItemBox>, PipelineError>(e),
            };
        if let Ok(PipelineOutcome::Continue(next)) = x {
            assert(stages_process(rest, 0, next, r));
        }
        assert(stages[0].processes(item, x));
    }
    if exists|x: Result<PipelineOutcome, PipelineError>|
        #[trigger] stages[0].processes(item, x) && match x {
            Ok(PipelineOutcome::Continue(next)) => stages_process(rest, 0, next, r),
            Ok(PipelineOutcome::Drop(_)) => r == Ok::<Option<ItemBox>, PipelineError>(None),
            Err(e) => r == Err::<Option<ItemBox>, PipelineError>(e),
        } {
        let x = choose|x: Result<PipelineOutcome, PipelineError>|
            #[trigger] stages[0].processes(item, x) && match x {
                Ok(PipelineOutcome::Continue(next)) => stages_process(rest, 0, next, r),
                Ok(PipelineOutcome::Drop(_)) => r == Ok::<Option<ItemBox>, PipelineError>(None),
                Err(e) => r == Err::<Option<ItemBox>, PipelineError>(e),
            };
        if let Ok(PipelineOutcome::Continue(next)) = x {
            assert(stages_process(stages, 1, next, r));
        }
        assert(stages[0].processes(item, x));
    }
}

/// Opening (or closing) the stages from the one at `i + 1` answers as the
/// stages without the first do from `i`.
proof fn lemma_stages_answer_shift(
    stages: Seq<Box<dyn Pipeline>>,
    i: int,
    closing: bool,
    r: Result<(), PipelineError>,
)
    requires
        stages.len() > 0,
        0 <= i,
    ensures
        stages_answer(stages, i + 1, closing, r) == stages_answer(stages.drop_first(), i, closing, r),
    decreases stages.len() - i,
{
    lemma_drop_first_shifts(stages);
    let rest = stages.drop_first();
    if i + 1 < stages.len() {
        assert(rest[i] == stages[i + 1]);
        lemma_stages_answer_shift(stages, i + 1, closing, r);
        assert forall|x: Result<(), PipelineError>|
            (#[trigger] stage_answers(stages, i + 1, closing, x) && match x {
                Ok(_) => stages_answer(stages, i + 2, closing, r),
                Err(e) => r == Err::<(), PipelineError>(e),
            }) == (stage_answers(rest, i, closing, x) && match x {
                Ok(_) => stages_answer(rest, i + 1, closing, r),
                Err(e) => r == Err::<(), PipelineError>(e),
            }) by {}
        if stages_answer(stages, i + 1, closing, r) {
            let x = choose|x: Result<(), PipelineError>|
                #[trigger] stage_answers(stages, i + 1, closing, x) && match x {
                    Ok(_) => stages_answer(stages, i + 2, closing, r),
                    Err(e) => r == Err::<(), PipelineError>(e),
                };
            assert(stage_answers(rest, i, closing, x));
        }
        if stages_answer(rest, i, closing, r) {
            let x = choose|x: Result<(), PipelineError>|
                #[trigger] stage_answers(rest, i, closing, x) && match x {
                    Ok(_) => stages_answer(rest, i + 1, closing, r),
                    Err(e) => r == Err::<(), PipelineError>(e),
                };
            assert(stage_answers(stages, i + 1, closing, x));
        }
    }
}

/// Law: the stage given first is opened (or closed) first.  Opening the
/// stages answers the first stage's error where it fails, and otherwise
/// what opening the rest, in the order they were given, answers.
pub proof fn lemma_first_stage_opened_first(stages: Seq<Box<dyn Pipeline>>, closing: bool, r: Result<(), PipelineError>)
    requires
        stages.len() > 0,
    ensures
        stages_answer(stages, 0, closing, r) <==> exists|x: Result<(), PipelineError>|
            #[trigger] stage_answers(stages, 0, closing, x) && match x {
                Ok(_) => stages_answer(stages.drop_first(), 0, closing, r),
                Err(e) => r == Err::<(), PipelineError>(e),
            },
{
    lemma_stages_answer_shift(stages, 0, closing, r);
}

impl PipelineManager {
    /// The stages, in the order they run.
    pub closed spec fn stages(&self) -> Seq<Box<dyn Pipeline>> {
        self.pipes@
    }

    /// How many stages the manager runs.
    pub open spec fn stage_count(&self) -> nat {
        self.stages().len()
    }

    pub fn new(pipes: Vec<Box<dyn Pipeline>>) -> (m: Self)
        ensures
            m.stages() == pipes@,
    {
        PipelineManager { pipes }
    }

    /// Opens the stages in order; the first error stops it and is the
    /// answer.
    pub fn open(&self) -> (r: Result<(), PipelineError>)
        ensures
            stages_answer(self.stages(), 0, false, r),
    {
        self.run_in_order(false)
    }

    /// Closes the stages in order; the first error stops it and is the
    /// answer.
    pub fn close(&self) -> (r: Result<(), PipelineError>)
        ensures
            stages_answer(self.stages(), 0, true, r),
    {
        self.run_in_order(true)
    }

    fn run_in_order(&self, closing: bool) -> (r: Result<(), PipelineError>)
        ensures
            stages_answer(self.pipes@, 0, closing, r),
    {
        let n = self.pipes.len();
        let mut i: usize = 0;
        while i < n
            invariant
                n == self.pipes@.len(),
                i <= n,
                forall|x: Result<(), PipelineError>|
                    #[trigger] stages_answer(self.pipes@, i as int, closing, x) ==> stages_answer(
                        self.pipes@,
                        0,
                        closing,
                        x,
                    ),
            decreases n - i,
        {
            let x = if closing {
                let y = self.pipes[i].close();
                assert(self.pipes@[i as int].closes(y));
                y
            } else {
                let y = self.pipes[i].open();
                assert(self.pipes@[i as int].opens(y));
                y
            };
            let ghost gx = x;
            proof {
                assert(stage_answers(self.pipes@, i as int, closing, gx));
                match gx {
                    Ok(_) => {
                        assert forall|y: Result<(), PipelineError>|
                            #[trigger] stages_answer(self.pipes@, i + 1, closing, y) implies stages_answer(
                            self.pipes@,
                            i as int,
                            closing,
                            y,
                        ) by {
                            assert(stage_answers(self.pipes@, i as int, closing, gx));
                        }
                    },
                    Err(e) => {
                        assert(stages_answer(self.pipes@, i as int, closing, Err::<(), PipelineError>(e)));
                    },
                }
            }
            match x {
                Ok(()) => {},
                Err(e) => {
                    return Err(e);
                },
            }
            i = i + 1;
        }
        assert(stages_answer(self.pipes@, n as int, closing, Ok::<(), PipelineError>(())));
        Ok(())
    }

    /// Runs the item through each stage in order: the first gets the item,
    /// each later one the item the one before passed on.  `Ok(Some(item))`
    /// where it survives every stage (so, with no stage, the item as it
    /// came); `Ok(None)` where a stage dropped it, after which no stage
    /// runs; the first error otherwise.
    pub fn process(&self, item: ItemBox) -> (r: Result<Option<ItemBox>, PipelineError>)
        ensures
            stages_process(self.stages(), 0, item, r),
    {
        let mut cur = item;
        let n = self.pipes.len();
        let mut i: usize = 0;
        while i < n
            invariant
                n == self.pipes@.len(),
                i <= n,
                forall|x: Result<Option<ItemBox>, PipelineError>|
                    #[trigger] stages_process(self.pipes@, i as int, cur, x) ==> stages_process(
                        self.pipes@,
                        0,
                        item,
                        x,
                    ),
            decreases n - i,
        {
            let ghost before = cur;
            let x = self.pipes[i].process(cur);
            let ghost gx = x;
            proof {
                assert(self.pipes@[i as int].processes(before, gx));
                match gx {
                    Ok(PipelineOutcome::Continue(next)) => {
                        assert forall|y: Result<Option<ItemBox>, PipelineError>|
                            #[trigger] stages_process(self.pipes@, i + 1, next, y) implies stages_process(
                            self.pipes@,
                            i as int,
                            before,
                            y,
                        ) by {
                            assert(self.pipes@[i as int].processes(before, gx));
                        }
                    },
                    Ok(PipelineOutcome::Drop(_)) => {
                        assert(stages_process(self.pipes@, i as int, before, Ok::<Option<ItemBox>, PipelineError>(None)));
                    },
                    Err(e) => {
                        assert(stages_process(self.pipes@, i as int, before, Err::<Option<ItemBox>, PipelineError>(e)));
                    },
                }
            }
            match after_stage(x) {
                StageStep::Next(next) => {
                    cur = next;
                },
                StageStep::Finish(result) => {
                    return result;
                },
            }
            i = i + 1;
        }
        assert(stages_process(self.pipes@, n as int, cur, Ok::<Option<ItemBox>, PipelineError>(Some(cur))));
        Ok(Some(cur))
    }
}

/// A stage that drops items that are not JSON objects or lack a field.
pub struct RequireFields {
    pub required: Vec<String>,
}

/// The texts of the strings.
pub open spec fn strings_view(v: Seq<String>) -> Seq<Seq<char>> {
    v.map_values(|s: String| s@)
}

/// The first required field, in order, that is not among the keys.
pub open spec fn first_missing(required: Seq<Seq<char>>, keys: Seq<Seq<char>>) -> Option<Seq<char>>
    decreases required.len(),
{
    if required.len() == 0 {
        None
    } else if !keys.contains(required[0]) {
        Some(required[0])
    } else {
        first_missing(required.drop_first(), keys)
    }
}

/// What [`RequireFields`] makes of an item with this JSON serialization.
pub open spec fn require_fields_result(
    required: Seq<Seq<char>>,
    item: ItemBox,
    r: Result<PipelineOutcome, PipelineError>,
) -> bool {
    fields_outcome(required, json_object_keys(item.json@), item, r)
}

/// What [`RequireFields`] makes of an item whose JSON parsed to `keys`
/// (`None`: not JSON; `Some(None)`: not an object; otherwise its keys).
pub open spec fn fields_outcome(
    required: Seq<Seq<char>>,
    keys: Option<Option<Seq<Seq<char>>>>,
    item: ItemBox,
    r: Result<PipelineOutcome, PipelineError>,
) -> bool {
    match keys {
        None => r matches Err(PipelineError::Other(m)) && m@ == "item is not valid JSON"@,
        Some(None) => r matches Ok(PipelineOutcome::Drop(m)) && m@ == "item is not an object"@,
        Some(Some(keys)) => match first_missing(required, keys) {
            Some(f) => r matches Ok(PipelineOutcome::Drop(m)) && m@ == "missing field: "@ + f,
            None => r == Ok::<PipelineOutcome, PipelineError>(PipelineOutcome::Continue(item)),
        },
    }
}

impl RequireFields {
    /// The required fields, as texts.
    pub open spec fn required_view(&self) -> Seq<Seq<char>> {
        strings_view(self.required@)
    }

    pub fn new(fields: Vec<String>) -> (r: Self)
        ensures
            r.required == fields,
    {
        RequireFields { required: fields }
    }
}

fn contains_key(keys: &Vec<String>, key: &String) -> (r: bool)
    ensures
        r == keys@.map_values(|s: String| s@).contains(key@),
{
    let ghost kv = keys@.map_values(|s: String| s@);
    let mut i: usize = 0;
    while i < keys.len()
        invariant
            kv == keys@.map_values(|s: String| s@),
            i <= keys@.len(),
            forall|k: int| 0 <= k < i ==> kv[k] != key@,
        decreases keys@.len() - i,
    {
        if str_eq(keys[i].as_str(), key.as_str()) {
            assert(kv[i as int] == key@);
            return true;
        }
        i = i + 1;
    }
    proof {
        if kv.contains(key@) {
            let k = kv.index_of(key@);
            assert(kv[k] == key@);
        }
    }
    false
}

/// The rule of [`RequireFields`] once the item's JSON has been parsed
/// (`parsed` as [`parse_json_object_keys`] gives it): not JSON is an error;
/// not an object, or an object that lacks a required field (the first in
/// order), drops the item; otherwise it goes on unchanged.
pub fn check_required_fields(
    required: &Vec<String>,
    parsed: Option<Option<Vec<String>>>,
    item: ItemBox,
) -> (r: Result<PipelineOutcome, PipelineError>)
    ensures
        fields_outcome(strings_view(required@), keys_view(parsed), item, r),
{
    let keys = match parsed {
        None => {
            return Err(PipelineError::Other("item is not valid JSON".to_string()));
        },
        Some(None) => {
            return Ok(PipelineOutcome::Drop("item is not an object".to_string()));
        },
        Some(Some(keys)) => keys,
    };
    let ghost kv = keys@.map_values(|s: String| s@);
    let ghost req = strings_view(required@);
    let mut i: usize = 0;
    assert(req.skip(0) =~= req);
    while i < required.len()
        invariant
            keys_view(parsed) == Some(Some(kv)),
            i <= required@.len(),
            req == strings_view(required@),
            kv == keys@.map_values(|s: String| s@),
            first_missing(req, kv) == first_missing(req.skip(i as int), kv),
        decreases required@.len() - i,
    {
        let f = &required[i];
        assert(req.skip(i as int)[0] == f@);
        assert(req.skip(i as int).drop_first() =~= req.skip(i + 1));
        if !contains_key(&keys, f) {
            let m = "missing field: ".to_string();
            return Ok(PipelineOutcome::Drop(m.concat(f.as_str())));
        }
        i = i + 1;
    }
    assert(req.skip(i as int).len() == 0);
    Ok(PipelineOutcome::Continue(item))
}

impl Pipeline for RequireFields {
    open spec fn opens(&self, r: Result<(), PipelineError>) -> bool {
        r == Ok::<(), PipelineError>(())
    }

    open spec fn processes(&self, item: ItemBox, r: Result<PipelineOutcome, PipelineError>) -> bool {
        require_fields_result(self.required_view(), item, r)
    }

    open spec fn closes(&self, r: Result<(), PipelineError>) -> bool {
        r == Ok::<(), PipelineError>(())
    }

    /// Nothing to set up.
    fn open(&self) -> (r: Result<(), PipelineError>) {
        Ok(())
    }

    fn process(&self, item: ItemBox) -> (r: Result<PipelineOutcome, PipelineError>) {
        let keys = parse_json_object_keys(item.json.as_slice());
        check_required_fields(&self.required, keys, item)
    }

    /// Nothing to tear down.
    fn close(&self) -> (r: Result<(), PipelineError>) {
        Ok(())
    }
}

/// Which required field [`first_missing`] names: none where every required
/// field is among the keys, and otherwise the first absent one.
proof fn lemma_first_missing(required: Seq<Seq<char>>, keys: Seq<Seq<char>>)
    ensures
        (forall|i: int| 0 <= i < required.len() ==> keys.contains(#[trigger] required[i]))
            ==> first_missing(required, keys) is None,
        forall|i: int|
            0 <= i < required.len() && !keys.contains(#[trigger] required[i]) && (forall|j: int|
                0 <= j < i ==> keys.contains(required[j])) ==> first_missing(required, keys) == Some(required[i]),
    decreases required.len(),
{
    if required.len() > 0 {
        let rest = required.drop_first();
        lemma_first_missing(rest, keys);
        assert forall|i: int|
            0 <= i < required.len() && !keys.contains(#[trigger] required[i]) && (forall|j: int|
                0 <= j < i ==> keys.contains(required[j])) implies first_missing(required, keys) == Some(required[i]) by {
            if i > 0 {
                assert(keys.contains(required[0]));
                assert(rest[i - 1] == required[i]);
                assert forall|j: int| 0 <= j < i - 1 implies keys.contains(rest[j]) by {
                    assert(rest[j] == required[j + 1]);
                }
            }
        }
        if forall|i: int| 0 <= i < required.len() ==> keys.contains(#[trigger] required[i]) {
            assert(keys.contains(required[0]));
            assert forall|i: int| 0 <= i < rest.len() implies keys.contains(#[trigger] rest[i]) by {
                assert(rest[i] == required[i + 1]);
            }
        }
    }
}

/// Law: on an object, the require-fields stage lets the item go on
/// unchanged exactly when every required field is among its keys, and
/// otherwise drops it naming the first required field, in order, that is
/// absent.
pub proof fn lemma_required_fields_rule(
    required: Seq<Seq<char>>,
    keys: Seq<Seq<char>>,
    item: ItemBox,
    r: Result<PipelineOutcome, PipelineError>,
)
    requires
        fields_outcome(required, Some(Some(keys)), item, r),
    ensures
        (r == Ok::<PipelineOutcome, PipelineError>(PipelineOutcome::Continue(item))) <==> (forall|i: int|
            0 <= i < required.len() ==> keys.contains(#[trigger] required[i])),
        forall|i: int|
            0 <= i < required.len() && !keys.contains(#[trigger] required[i]) && (forall|j: int|
                0 <= j < i ==> keys.contains(required[j])) ==> (r matches Ok(PipelineOutcome::Drop(m)) && m@
                == "missing field: "@ + required[i]),
{
    lemma_first_missing(required, keys);
    if !(forall|i: int| 0 <= i < required.len() ==> keys.contains(#[trigger] required[i])) {
        let i = choose|i: int| 0 <= i < required.len() && !keys.contains(#[trigger] required[i]);
        lemma_first_absent_exists(required, keys, i);
    }
}

/// Where some required field is absent, there is a first one.
proof fn lemma_first_absent_exists(required: Seq<Seq<char>>, keys: Seq<Seq<char>>, k: int)
    requires
        0 <= k < required.len(),
        !keys.contains(required[k]),
    ensures
        exists|i: int|
            0 <= i < required.len() && !keys.contains(#[trigger] required[i]) && (forall|j: int|
                0 <= j < i ==> keys.contains(required[j])),
    decreases k,
{
    if forall|j: int| 0 <= j < k ==> keys.contains(required[j]) {
        assert(!keys.contains(required[k]));
    } else {
        let j = choose|j: int| 0 <= j < k && !keys.contains(required[j]);
        lemma_first_absent_exists(required, keys, j);
    }
}

/// A JSON-lines record: the item's JSON followed by a newline.
pub fn json_line(item: &ItemBox) -> (r: Vec<u8>)
    ensures
        r@ == item.json@.push(10u8),
{
    let mut buf = item.json.clone();
    buf.push(10u8);
    buf
}

/// The outcome of exporting an item: `None` means the exporter was not
/// opened, `Some(Err(m))` that writing failed with message `m`.
pub fn export_outcome(written: Option<Result<(), String>>) -> (r: Result<PipelineOutcome, PipelineError>)
    ensures
        written is None ==> (r matches Err(PipelineError::Other(m)) && m@ == "JsonLinesExporter not opened"@),
        written matches Some(Err(e)) ==> (r matches Err(PipelineError::Other(m)) && m == e),
        written matches Some(Ok(())) ==> (r matches Ok(PipelineOutcome::Drop(m)) && m@ == "exported"@),
{
    match written {
        None => Err(PipelineError::Other("JsonLinesExporter not opened".to_string())),
        Some(Err(e)) => Err(PipelineError::Other(e)),
        Some(Ok(())) => Ok(PipelineOutcome::Drop("exported".to_string())),
    }
}

} // verus!
