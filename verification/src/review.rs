//! The answers of an outside review of a transcript, and the rules by which
//! they are checked and applied: which answers name passages that exist,
//! which are confident enough for the editing mode, and which removals an
//! approval releases.

use vstd::prelude::*;
use crate::chars::chars_of;
use crate::timeline::{Millis, ProcessingMode};
use crate::provider::str_equals;

verus! {

/// A passage of the transcript handed to review.
#[derive(Clone, Debug)]
pub struct Passage {
    pub id: usize,
    pub text: String,
    pub start: Millis,
    pub end: Millis,
    pub word_count: usize,
}

/// A group of passages in which the speaker retries the same content.
#[derive(Clone, Debug)]
pub struct RetakeGroup {
    pub group_id: usize,
    pub description: String,
    pub passages: Vec<usize>,
    pub keep: Vec<usize>,
    pub remove: Vec<usize>,
    pub confidence: String,
}

/// A passage given up by the speaker, with no complete version elsewhere.
#[derive(Clone, Debug)]
pub struct AbandonedPassage {
    pub id: usize,
    pub reason: String,
    pub confidence: String,
}

/// What a review found: retake groups and abandoned passages.
#[derive(Clone, Debug)]
pub struct RetakeDetectionResult {
    pub retake_groups: Vec<RetakeGroup>,
    pub abandoned_passages: Vec<AbandonedPassage>,
}

/// The verdict of a second review on one retake group.
#[derive(Clone, Debug)]
pub struct GroupVerification {
    pub group_id: usize,
    pub approved: bool,
    pub reason: String,
}

/// The verdicts of a second review.
#[derive(Clone, Debug)]
pub struct VerificationResult {
    pub verified_groups: Vec<GroupVerification>,
}

pub struct PassageView {
    pub id: usize,
    pub text: Seq<char>,
    pub start: Millis,
    pub end: Millis,
    pub word_count: int,
}

impl View for Passage {
    type V = PassageView;

    open spec fn view(&self) -> PassageView {
        PassageView {
            id: self.id,
            text: self.text@,
            start: self.start,
            end: self.end,
            word_count: self.word_count as int,
        }
    }
}

pub struct GroupView {
    pub group_id: int,
    pub description: Seq<char>,
    pub passages: Seq<usize>,
    pub keep: Seq<usize>,
    pub remove: Seq<usize>,
    pub confidence: Seq<char>,
}

impl View for RetakeGroup {
    type V = GroupView;

    open spec fn view(&self) -> GroupView {
        GroupView {
            group_id: self.group_id as int,
            description: self.description@,
            passages: self.passages@,
            keep: self.keep@,
            remove: self.remove@,
            confidence: self.confidence@,
        }
    }
}

pub struct AbandonedView {
    pub id: usize,
    pub reason: Seq<char>,
    pub confidence: Seq<char>,
}

impl View for AbandonedPassage {
    type V = AbandonedView;

    open spec fn view(&self) -> AbandonedView {
        AbandonedView { id: self.id, reason: self.reason@, confidence: self.confidence@ }
    }
}

pub struct VerdictView {
    pub group_id: int,
    pub approved: bool,
    pub reason: Seq<char>,
}

impl View for GroupVerification {
    type V = VerdictView;

    open spec fn view(&self) -> VerdictView {
        VerdictView { group_id: self.group_id as int, approved: self.approved, reason: self.reason@ }
    }
}

pub open spec fn passage_views(passages: Seq<Passage>) -> Seq<PassageView> {
    passages.map_values(|p: Passage| p@)
}

pub open spec fn group_views(groups: Seq<RetakeGroup>) -> Seq<GroupView> {
    groups.map_values(|g: RetakeGroup| g@)
}

pub open spec fn abandoned_views(list: Seq<AbandonedPassage>) -> Seq<AbandonedView> {
    list.map_values(|a: AbandonedPassage| a@)
}

pub open spec fn verdict_views(list: Seq<GroupVerification>) -> Seq<VerdictView> {
    list.map_values(|v: GroupVerification| v@)
}

/// The editing mode of the given name; moderate for any name but
/// `aggressive` and `conservative`.
pub open spec fn mode_named(name: Seq<char>) -> ProcessingMode {
    if name == "aggressive"@ {
        ProcessingMode::Aggressive
    } else if name == "conservative"@ {
        ProcessingMode::Conservative
    } else {
        ProcessingMode::Moderate
    }
}

pub fn mode_from_str(name: &str) -> (mode: ProcessingMode)
    ensures
        mode == mode_named(name@),
{
    if str_equals(name, "aggressive") {
        ProcessingMode::Aggressive
    } else if str_equals(name, "conservative") {
        ProcessingMode::Conservative
    } else {
        ProcessingMode::Moderate
    }
}

/// The sentence that tells the judging service how bold to be, by the name of the
/// editing mode.
pub fn get_mode_instruction(mode: &str) -> (text: &'static str)
    ensures
        text@ == match mode_named(mode@) {
            ProcessingMode::Aggressive => "Mode agressif : identifie toutes les reprises probables, y compris les cas ambigus."@,
            ProcessingMode::Conservative => "Mode conservateur : identifie UNIQUEMENT les reprises évidentes et indiscutables. Au moindre doute, garde le passage."@,
            ProcessingMode::Moderate => "Mode modéré : identifie les reprises claires et probables. En cas de doute léger, garde le passage."@,
        },
{
    match mode_from_str(mode) {
        ProcessingMode::Aggressive => "Mode agressif : identifie toutes les reprises probables, y compris les cas ambigus.",
        ProcessingMode::Conservative => "Mode conservateur : identifie UNIQUEMENT les reprises évidentes et indiscutables. Au moindre doute, garde le passage.",
        ProcessingMode::Moderate => "Mode modéré : identifie les reprises claires et probables. En cas de doute léger, garde le passage.",
    }
}

/// Whether a finding of the given confidence is acted on in a mode: the
/// aggressive mode acts on every finding, the conservative mode on those of
/// high confidence, the moderate mode on those of high or medium
/// confidence.
pub open spec fn confident_enough(mode: ProcessingMode, confidence: Seq<char>) -> bool {
    match mode {
        ProcessingMode::Aggressive => true,
        ProcessingMode::Conservative => confidence == "high"@,
        ProcessingMode::Moderate => confidence == "high"@ || confidence == "medium"@,
    }
}

pub fn is_confident_enough(mode: ProcessingMode, confidence: &str) -> (b: bool)
    ensures
        b == confident_enough(mode, confidence@),
{
    match mode {
        ProcessingMode::Aggressive => true,
        ProcessingMode::Conservative => str_equals(confidence, "high"),
        ProcessingMode::Moderate => str_equals(confidence, "high") || str_equals(
            confidence,
            "medium",
        ),
    }
}

/// Every id is below `bound`.
pub open spec fn all_below(ids: Seq<usize>, bound: int) -> bool {
    forall|i: int| 0 <= i < ids.len() ==> ids[i] < bound
}

pub fn ids_below(ids: &Vec<usize>, bound: usize) -> (b: bool)
    ensures
        b == all_below(ids@, bound as int),
{
    let mut i: usize = 0;
    while i < ids.len()
        invariant
            i <= ids.len(),
            forall|k: int| 0 <= k < i ==> ids@[k] < bound,
        decreases ids.len() - i,
    {
        if ids[i] >= bound {
            return false;
        }
        i += 1;
    }
    true
}

/// A group names only passages that exist.
pub open spec fn group_in_range(g: GroupView, count: int) -> bool {
    all_below(g.passages, count) && all_below(g.keep, count) && all_below(g.remove, count)
}

pub open spec fn groups_in_range(groups: Seq<GroupView>, count: int) -> Seq<GroupView> {
    groups.filter(|g: GroupView| group_in_range(g, count))
}

pub open spec fn abandoned_in_range(list: Seq<AbandonedView>, count: int) -> Seq<AbandonedView> {
    list.filter(|a: AbandonedView| a.id < count)
}

pub fn copy_group(g: &RetakeGroup) -> (c: RetakeGroup)
    ensures
        c@ == g@,
{
    RetakeGroup {
        group_id: g.group_id,
        description: g.description.clone(),
        passages: g.passages.clone(),
        keep: g.keep.clone(),
        remove: g.remove.clone(),
        confidence: g.confidence.clone(),
    }
}

pub fn copy_abandoned(a: &AbandonedPassage) -> (c: AbandonedPassage)
    ensures
        c@ == a@,
{
    AbandonedPassage { id: a.id, reason: a.reason.clone(), confidence: a.confidence.clone() }
}

/// Keeps the groups that name only passages that exist.
pub fn valid_groups(groups: &Vec<RetakeGroup>, passage_count: usize) -> (out: Vec<RetakeGroup>)
    ensures
        group_views(out@) == groups_in_range(group_views(groups@), passage_count as int),
{
    let ghost all = group_views(groups@);
    let mut out: Vec<RetakeGroup> = Vec::new();
    let mut i: usize = 0;
    proof {
        reveal(Seq::filter);
        assert(group_views(out@) =~= groups_in_range(all.take(0), passage_count as int));
    }
    while i < groups.len()
        invariant
            i <= groups.len(),
            all == group_views(groups@),
            group_views(out@) == groups_in_range(all.take(i as int), passage_count as int),
        decreases groups.len() - i,
    {
        proof {
            reveal(Seq::filter);
            assert(all.take(i + 1).drop_last() =~= all.take(i as int));
        }
        let g = &groups[i];
        if ids_below(&g.passages, passage_count) && ids_below(&g.keep, passage_count) && ids_below(
            &g.remove,
            passage_count,
        ) {
            let ghost before = out@;
            out.push(copy_group(g));
            proof {
                assert(group_views(out@) =~= group_views(before).push(g@));
            }
        }
        i += 1;
    }
    proof {
        assert(all.take(i as int) =~= all);
    }
    out
}

/// Keeps the abandoned passages that exist.
pub fn valid_abandoned(list: &Vec<AbandonedPassage>, passage_count: usize) -> (out: Vec<
    AbandonedPassage,
>)
    ensures
        abandoned_views(out@) == abandoned_in_range(abandoned_views(list@), passage_count as int),
{
    let ghost all = abandoned_views(list@);
    let mut out: Vec<AbandonedPassage> = Vec::new();
    let mut i: usize = 0;
    proof {
        reveal(Seq::filter);
        assert(abandoned_views(out@) =~= abandoned_in_range(all.take(0), passage_count as int));
    }
    while i < list.len()
        invariant
            i <= list.len(),
            all == abandoned_views(list@),
            abandoned_views(out@) == abandoned_in_range(all.take(i as int), passage_count as int),
        decreases list.len() - i,
    {
        proof {
            reveal(Seq::filter);
            assert(all.take(i + 1).drop_last() =~= all.take(i as int));
        }
        if list[i].id < passage_count {
            let ghost before = out@;
            out.push(copy_abandoned(&list[i]));
            proof {
                assert(abandoned_views(out@) =~= abandoned_views(before).push(list@[i as int]@));
            }
        }
        i += 1;
    }
    proof {
        assert(all.take(i as int) =~= all);
    }
    out
}

/// Drops from a review's findings whatever names a passage that does not
/// exist.
pub fn validate_detection(found: &RetakeDetectionResult, passage_count: usize) -> (out:
    RetakeDetectionResult)
    ensures
        group_views(out.retake_groups@) == groups_in_range(
            group_views(found.retake_groups@),
            passage_count as int,
        ),
        abandoned_views(out.abandoned_passages@) == abandoned_in_range(
            abandoned_views(found.abandoned_passages@),
            passage_count as int,
        ),
{
    RetakeDetectionResult {
        retake_groups: valid_groups(&found.retake_groups, passage_count),
        abandoned_passages: valid_abandoned(&found.abandoned_passages, passage_count),
    }
}

pub open spec fn confident_groups(groups: Seq<GroupView>, mode: ProcessingMode) -> Seq<GroupView> {
    groups.filter(|g: GroupView| confident_enough(mode, g.confidence))
}

/// The groups confident enough, in the given mode, to be put to the second
/// review.
pub fn groups_to_verify(groups: &Vec<RetakeGroup>, mode: ProcessingMode) -> (out: Vec<RetakeGroup>)
    ensures
        group_views(out@) == confident_groups(group_views(groups@), mode),
{
    let ghost all = group_views(groups@);
    let mut out: Vec<RetakeGroup> = Vec::new();
    let mut i: usize = 0;
    proof {
        reveal(Seq::filter);
        assert(group_views(out@) =~= confident_groups(all.take(0), mode));
    }
    while i < groups.len()
        invariant
            i <= groups.len(),
            all == group_views(groups@),
            group_views(out@) == confident_groups(all.take(i as int), mode),
        decreases groups.len() - i,
    {
        proof {
            reveal(Seq::filter);
            assert(all.take(i + 1).drop_last() =~= all.take(i as int));
        }
        if is_confident_enough(mode, groups[i].confidence.as_str()) {
            let ghost before = out@;
            out.push(copy_group(&groups[i]));
            proof {
                assert(group_views(out@) =~= group_views(before).push(groups@[i as int]@));
            }
        }
        i += 1;
    }
    proof {
        assert(all.take(i as int) =~= all);
    }
    out
}

/// The abandoned passages confident enough for the mode.
pub open spec fn confident_passages(list: Seq<AbandonedView>, mode: ProcessingMode) -> Seq<
    AbandonedView,
> {
    list.filter(|a: AbandonedView| confident_enough(mode, a.confidence))
}

/// The ids of a list of abandoned passages.
pub open spec fn abandoned_ids(list: Seq<AbandonedView>) -> Seq<usize> {
    list.map_values(|a: AbandonedView| a.id)
}

/// The ids of the abandoned passages that are confident enough, in the
/// given mode, to be removed.
pub fn confident_abandoned(list: &Vec<AbandonedPassage>, mode: ProcessingMode) -> (out: Vec<usize>)
    ensures
        out@ == abandoned_ids(confident_passages(abandoned_views(list@), mode)),
{
    let ghost all = abandoned_views(list@);
    let mut out: Vec<usize> = Vec::new();
    let mut i: usize = 0;
    proof {
        reveal(Seq::filter);
        assert(out@ =~= abandoned_ids(confident_passages(all.take(0), mode)));
    }
    while i < list.len()
        invariant
            i <= list.len(),
            all == abandoned_views(list@),
            out@ == abandoned_ids(confident_passages(all.take(i as int), mode)),
        decreases list.len() - i,
    {
        proof {
            reveal(Seq::filter);
            assert(all.take(i + 1).drop_last() =~= all.take(i as int));
        }
        if is_confident_enough(mode, list[i].confidence.as_str()) {
            let ghost before = confident_passages(all.take(i as int), mode);
            out.push(list[i].id);
            proof {
                assert(confident_passages(all.take(i + 1), mode) == before.push(all[i as int]));
                assert(out@ =~= abandoned_ids(before.push(all[i as int])));
            }
        }
        i += 1;
    }
    proof {
        assert(all.take(i as int) =~= all);
    }
    out
}

/// Whether some verdict approves the group of the given id.
pub open spec fn approved(verdicts: Seq<VerdictView>, group_id: int) -> bool {
    exists|i: int|
        0 <= i < verdicts.len() && (#[trigger] verdicts[i]).approved && verdicts[i].group_id
            == group_id
}

pub fn is_approved(verdicts: &Vec<GroupVerification>, group_id: usize) -> (b: bool)
    ensures
        b == approved(verdict_views(verdicts@), group_id as int),
{
    let ghost vs = verdict_views(verdicts@);
    let mut i: usize = 0;
    while i < verdicts.len()
        invariant
            i <= verdicts.len(),
            vs == verdict_views(verdicts@),
            forall|k: int| 0 <= k < i ==> !((#[trigger] vs[k]).approved && vs[k].group_id == group_id),
        decreases verdicts.len() - i,
    {
        if verdicts[i].approved && verdicts[i].group_id == group_id {
            proof {
                assert(vs[i as int].approved && vs[i as int].group_id == group_id);
            }
            return true;
        }
        i += 1;
    }
    false
}

/// The passages that the approved groups among the first `k` remove, group
/// by group.
pub open spec fn released_upto(groups: Seq<GroupView>, verdicts: Seq<VerdictView>, k: int) -> Seq<
    usize,
>
    decreases k,
{
    if k <= 0 {
        Seq::empty()
    } else if approved(verdicts, groups[k - 1].group_id) {
        released_upto(groups, verdicts, k - 1) + groups[k - 1].remove
    } else {
        released_upto(groups, verdicts, k - 1)
    }
}

/// The passages to remove once the second review has spoken: those that
/// the approved groups name for removal.
pub fn approved_removals(groups: &Vec<RetakeGroup>, verdicts: &Vec<GroupVerification>) -> (out: Vec<
    usize,
>)
    ensures
        out@ == released_upto(
            group_views(groups@),
            verdict_views(verdicts@),
            groups.len() as int,
        ),
{
    let ghost gs = group_views(groups@);
    let ghost vs = verdict_views(verdicts@);
    let mut out: Vec<usize> = Vec::new();
    let mut i: usize = 0;
    while i < groups.len()
        invariant
            i <= groups.len(),
            gs == group_views(groups@),
            vs == verdict_views(verdicts@),
            out@ == released_upto(gs, vs, i as int),
        decreases groups.len() - i,
    {
        if is_approved(verdicts, groups[i].group_id) {
            let ghost before = out@;
            let list = &groups[i].remove;
            let mut k: usize = 0;
            while k < list.len()
                invariant
                    k <= list.len(),
                    out@ == before + list@.take(k as int),
                decreases list.len() - k,
            {
                out.push(list[k]);
                proof {
                    assert(list@.take(k + 1) =~= list@.take(k as int).push(list@[k as int]));
                    assert(before + list@.take(k + 1) =~= (before + list@.take(k as int)).push(
                        list@[k as int],
                    ));
                }
                k += 1;
            }
            proof {
                assert(list@.take(k as int) =~= list@);
            }
        }
        i += 1;
    }
    out
}

/// A text cut to at most `max_chars` characters, with three full stops
/// behind it where it was cut.
pub open spec fn shortened(s: Seq<char>, max_chars: int) -> Seq<char> {
    if s.len() <= max_chars {
        s
    } else {
        s.take(max_chars) + seq!['.', '.', '.']
    }
}

/// Cuts a text to at most `max_chars` characters for display.
pub fn truncate_str(s: &str, max_chars: usize) -> (r: String)
    ensures
        r@ == shortened(s@, max_chars as int),
{
    let chars = chars_of(s);
    if chars.len() <= max_chars {
        return crate::chars::string_of(&chars);
    }
    let mut cut: Vec<char> = Vec::new();
    let mut i: usize = 0;
    while i < max_chars
        invariant
            i <= max_chars < chars.len(),
            cut@ == chars@.take(i as int),
        decreases max_chars - i,
    {
        cut.push(chars[i]);
        proof {
            assert(chars@.take(i + 1) =~= chars@.take(i as int).push(chars@[i as int]));
        }
        i += 1;
    }
    cut.push('.');
    cut.push('.');
    cut.push('.');
    proof {
        assert(cut@ =~= chars@.take(max_chars as int) + seq!['.', '.', '.']);
    }
    crate::chars::string_of(&cut)
}

} // verus!
