//! Sequence-plan validation shared with the vehicle's load rules.
//!
//! The vehicle refuses defective sequence plans at load; the checks here
//! mirror those rules dictionary-driven so authors get the refusal at upload
//! time with the same wording. Targets whose dictionaries do not describe the
//! sequence structs skip every check: the vehicle is always the backstop,
//! never bypassed.

use vstd::prelude::*;

use crate::config_manager::{ComponentDict, FieldDef, StructDef, StructDictionary};
use crate::text::{dec, has_prefix, push_dec, same_text};
use crate::text_map::lookup;
use crate::tprm::{parse_v3, verified};
use crate::wire::get_u32_le;

verus! {

/// The plan's bytes: the body of a stamped payload, or the bytes as they are.
pub open spec fn plan_body(bytes: Seq<u8>) -> Seq<u8> {
    match verified(bytes) {
        Ok((_, body)) => body,
        Err(_) => bytes,
    }
}

/// The sequence and step structs of a component, if it has both.
pub open spec fn plan_structs_of(dict: ComponentDict) -> Option<(StructDef, StructDef)> {
    match (
        lookup(dict.structs@, "StandaloneSequenceTprm"@),
        lookup(dict.structs@, "StandaloneStepTprm"@),
    ) {
        (Some(seq), Some(step)) => Some((seq, step)),
        _ => None,
    }
}

/// The sequence and step structs of the first component that has both.
pub open spec fn plan_structs(components: Seq<(Seq<char>, ComponentDict)>) -> Option<
    (StructDef, StructDef),
>
    decreases components.len(),
{
    if components.len() == 0 {
        None
    } else {
        match plan_structs_of(components[0].1) {
            Some(p) => Some(p),
            None => plan_structs(components.skip(1)),
        }
    }
}

/// The offset of the first field with the given name.
pub open spec fn offset_of(fields: Seq<FieldDef>, name: Seq<char>) -> Option<usize>
    decreases fields.len(),
{
    if fields.len() == 0 {
        None
    } else if fields[0].name@ == name {
        Some(fields[0].offset)
    } else {
        offset_of(fields.skip(1), name)
    }
}

/// Where the checked fields of a plan stand.
pub struct PlanLayout {
    pub type_off: usize,
    pub count_off: usize,
    pub steps_off: usize,
    pub delay_off: usize,
    pub timeout_off: usize,
    pub size: usize,
    pub step_size: usize,
}

/// The layout the dictionaries give a plan; None when they do not describe all
/// of it.
pub open spec fn layout_of(dicts: StructDictionary) -> Option<PlanLayout> {
    match plan_structs(dicts.components@) {
        None => None,
        Some((seq, step)) => match (
            offset_of(seq.fields@, "type"@),
            offset_of(seq.fields@, "stepCount"@),
            offset_of(seq.fields@, "steps"@),
            offset_of(step.fields@, "delayCycles"@),
            offset_of(step.fields@, "timeoutCycles"@),
        ) {
            (Some(type_off), Some(count_off), Some(steps_off), Some(delay_off), Some(timeout_off)) =>
            Some(
                PlanLayout {
                    type_off,
                    count_off,
                    steps_off,
                    delay_off,
                    timeout_off,
                    size: seq.size,
                    step_size: step.size,
                },
            ),
            _ => None,
        },
    }
}

/// Whether a payload is long enough to be a plan of the given layout.
pub open spec fn is_plan(l: PlanLayout, body: Seq<u8>) -> bool {
    body.len() >= l.size && l.step_size > 0
}

/// Whether the type and step-count bytes of a plan are there to be read.
pub open spec fn readable(l: PlanLayout, body: Seq<u8>) -> bool {
    l.type_off < body.len() && l.count_off < body.len()
}

/// Where step `i` begins.
pub open spec fn step_base(l: PlanLayout, i: int) -> int {
    l.steps_off + i * l.step_size
}

/// Whether both cycle counts of step `i` lie within the payload.
pub open spec fn step_present(l: PlanLayout, body: Seq<u8>, i: int) -> bool {
    &&& step_base(l, i) + l.delay_off + 4 <= body.len()
    &&& step_base(l, i) + l.timeout_off + 4 <= body.len()
}

pub open spec fn step_delay(l: PlanLayout, body: Seq<u8>, i: int) -> u32 {
    crate::wire::u32_le_at(body, step_base(l, i) + l.delay_off)
}

pub open spec fn step_timeout(l: PlanLayout, body: Seq<u8>, i: int) -> u32 {
    crate::wire::u32_le_at(body, step_base(l, i) + l.timeout_off)
}

/// Whether a step's timeout expires within its own delay. Zero stands for "no
/// policy".
pub open spec fn step_defective(l: PlanLayout, body: Seq<u8>, i: int) -> bool {
    0 < step_timeout(l, body, i) <= step_delay(l, body, i)
}

/// The first defective step among steps `i` up to `n`; the search ends at the
/// first step that is not all there.
pub open spec fn first_defect(l: PlanLayout, body: Seq<u8>, i: int, n: int) -> Option<int>
    decreases n - i,
{
    if i >= n || !step_present(l, body, i) {
        None
    } else if step_defective(l, body, i) {
        Some(i)
    } else {
        first_defect(l, body, i + 1, n)
    }
}

/// The refusal of a defective step.
pub open spec fn refusal(i: int, timeout: u32, delay: u32) -> Seq<char> {
    "step "@ + dec(i as nat) + ": timeoutCycles "@ + dec(timeout as nat)
        + " expires within the step's own "@ + dec(delay as nat)
        + "-cycle delay                  (TIMEOUT_SHORTER_THAN_DELAY; the vehicle would refuse this at load)"@
}

/// What validation finds: None when the plan passes or is none, else the
/// refusal.
pub open spec fn plan_refusal(dicts: StructDictionary, bytes: Seq<u8>) -> Option<Seq<char>> {
    let body = plan_body(bytes);
    match layout_of(dicts) {
        None => None,
        Some(l) => if !is_plan(l, body) || body[l.type_off as int] != 0 {
            None
        } else {
            match first_defect(l, body, 0, body[l.count_off as int] as int) {
                Some(i) => Some(refusal(i, step_timeout(l, body, i), step_delay(l, body, i))),
                None => None,
            }
        },
    }
}

fn find_offset(fields: &Vec<FieldDef>, name: &str) -> (r: Option<usize>)
    ensures
        r == offset_of(fields@, name@),
{
    assert(fields@.skip(0) =~= fields@);
    for i in 0..fields.len()
        invariant
            offset_of(fields@, name@) == offset_of(fields@.skip(i as int), name@),
    {
        if same_text(fields[i].name.as_str(), name) {
            return Some(fields[i].offset);
        }
        assert(fields@.skip(i as int).skip(1) =~= fields@.skip(i + 1));
    }
    None
}

fn find_plan_structs(dicts: &StructDictionary) -> (r: Option<(&StructDef, &StructDef)>)
    ensures
        match r {
            Some((seq, step)) => plan_structs(dicts.components@) == Some((*seq, *step)),
            None => plan_structs(dicts.components@) is None,
        },
{
    let ghost cs = dicts.components@;
    let n: usize = dicts.components.len();
    assert(cs.skip(0) =~= cs);
    for i in 0..n
        invariant
            cs == dicts.components@,
            n == cs.len(),
            plan_structs(cs) == plan_structs(cs.skip(i as int)),
    {
        let (_, dict) = dicts.components.entry(i);
        let seq = dict.structs.get("StandaloneSequenceTprm");
        let step = dict.structs.get("StandaloneStepTprm");
        match (seq, step) {
            (Some(a), Some(b)) => {
                return Some((a, b));
            },
            _ => {},
        }
        assert(cs.skip(i as int).skip(1) =~= cs.skip(i + 1));
    }
    None
}

fn find_layout(dicts: &StructDictionary) -> (r: Option<PlanLayout>)
    ensures
        r == layout_of(*dicts),
{
    let (seq, step) = match find_plan_structs(dicts) {
        Some(p) => p,
        None => return None,
    };
    match (
        find_offset(&seq.fields, "type"),
        find_offset(&seq.fields, "stepCount"),
        find_offset(&seq.fields, "steps"),
        find_offset(&step.fields, "delayCycles"),
        find_offset(&step.fields, "timeoutCycles"),
    ) {
        (Some(type_off), Some(count_off), Some(steps_off), Some(delay_off), Some(timeout_off)) =>
        Some(
            PlanLayout {
                type_off,
                count_off,
                steps_off,
                delay_off,
                timeout_off,
                size: seq.size,
                step_size: step.size,
            },
        ),
        _ => None,
    }
}

/// The 32-bit value at `base + off`, if it lies within the body.
fn cycles_at(body: &[u8], base: u128, off: usize) -> (r: Option<u32>)
    requires
        base <= 0xFFFF_FFFF_FFFF_FFFF_FFFF,
    ensures
        match r {
            Some(v) => base + off + 4 <= body@.len() && v == crate::wire::u32_le_at(
                body@,
                base + off,
            ),
            None => base + off + 4 > body@.len(),
        },
{
    let at: u128 = base + off as u128;
    if at + 4 <= body.len() as u128 {
        Some(get_u32_le(body, at as usize))
    } else {
        None
    }
}

/// Pre-validate an RTS sequence upload against the vehicle's own load rule,
/// dictionary-driven: a step whose timeoutCycles would expire within its own
/// delay is refused at upload time with the step named, instead of at vehicle
/// load. RTS type only (ATS delays are not comparable), and only when both
/// cycle counts are nonzero. Targets whose dictionaries do not describe the
/// sequence structs skip the check: the vehicle stays the backstop.
pub fn validate_rts_upload(dicts: &StructDictionary, bytes: &[u8]) -> (r: Result<(), String>)
    requires
        layout_of(*dicts) matches Some(l) ==> is_plan(l, plan_body(bytes@)) ==> readable(
            l,
            plan_body(bytes@),
        ),
    ensures
        match r {
            Ok(()) => plan_refusal(*dicts, bytes@) is None,
            Err(e) => plan_refusal(*dicts, bytes@) == Some(e@),
        },
{
    // Sequence files may arrive v3-stamped; validate the body either way.
    let body = match parse_v3(bytes) {
        Ok((_, b)) => b,
        Err(_) => bytes,
    };
    assert(body@ == plan_body(bytes@));
    let l = match find_layout(dicts) {
        Some(l) => l,
        None => return Ok(()),
    };
    if body.len() < l.size || l.step_size == 0 {
        return Ok(());
    }
    if body[l.type_off] != 0 {
        return Ok(());
    }
    let count: usize = body[l.count_off] as usize;
    for i in 0..count
        invariant
            body@ == plan_body(bytes@),
            layout_of(*dicts) == Some(l),
            count <= 255,
            plan_refusal(*dicts, bytes@) == (match first_defect(
                l,
                body@,
                i as int,
                count as int,
            ) {
                Some(k) => Some(refusal(k, step_timeout(l, body@, k), step_delay(l, body@, k))),
                None => None,
            }),
    {
        assert(0 <= i * l.step_size <= 255 * 0xFFFF_FFFF_FFFF_FFFF) by (nonlinear_arith)
            requires
                0 <= i <= 255,
                0 <= l.step_size <= 0xFFFF_FFFF_FFFF_FFFF,
        ;
        let base: u128 = l.steps_off as u128 + (i as u128) * (l.step_size as u128);
        match (cycles_at(body, base, l.delay_off), cycles_at(body, base, l.timeout_off)) {
            (Some(delay), Some(timeout)) => {
                if timeout > 0 && delay > 0 && timeout <= delay {
                    let mut e = "step ".to_owned();
                    push_dec(&mut e, i as u64);
                    e.append(": timeoutCycles ");
                    push_dec(&mut e, timeout as u64);
                    e.append(" expires within the step's own ");
                    push_dec(&mut e, delay as u64);
                    e.append(
                        "-cycle delay                  (TIMEOUT_SHORTER_THAN_DELAY; the vehicle would refuse this at load)",
                    );
                    return Err(e);
                }
            },
            _ => {
                return Ok(());
            },
        }
    }
    Ok(())
}

/// A stamped plan is judged by its body: stamping changes nothing about the
/// verdict on a plan that is not itself a stamped payload.
pub proof fn stamping_does_not_change_the_verdict(
    dicts: StructDictionary,
    full_uid: u32,
    layout_hash: u32,
    plan: Seq<u8>,
)
    requires
        plan.len() <= 0xFFFF,
        verified(plan) is Err,
    ensures
        plan_refusal(dicts, crate::tprm::stamped(full_uid, layout_hash, plan)) == plan_refusal(
            dicts,
            plan,
        ),
{
    crate::tprm::verify_undoes_stamp(full_uid, layout_hash, plan);
}

/// A plan without a defective step passes.
pub proof fn sound_plans_pass(l: PlanLayout, body: Seq<u8>, i: int, n: int)
    requires
        forall|k: int| i <= k < n ==> !#[trigger] step_defective(l, body, k),
    ensures
        first_defect(l, body, i, n) is None,
    decreases n - i,
{
    if i < n && step_present(l, body, i) {
        sound_plans_pass(l, body, i + 1, n);
    }
}

/// The number that the four bytes at offset `off` of step `i` stand for.
pub open spec fn step_number(l: PlanLayout, plan: Seq<u8>, i: int, off: usize) -> nat {
    crate::wire::le_value(plan, l.steps_off + i * l.step_size + off, 4)
}

/// Whether `bytes` carry a plan: stamped, or as they are.
pub open spec fn carries(bytes: Seq<u8>, plan: Seq<u8>) -> bool {
    ||| verified(bytes) is Err && bytes == plan
    ||| verified(bytes) is Ok && verified(bytes)->Ok_0.1 == plan
}

/// Whether `n` of a plan's steps are there to be judged: all that it counts, or
/// those before the first one that runs past its end.
pub open spec fn has_steps(l: PlanLayout, plan: Seq<u8>, n: int) -> bool {
    let last = if l.delay_off > l.timeout_off {
        l.delay_off
    } else {
        l.timeout_off
    };
    &&& 0 <= n <= plan[l.count_off as int]
    &&& forall|i: int|
        #![trigger step_number(l, plan, i, l.timeout_off)]
        0 <= i < n ==> l.steps_off + i * l.step_size + last + 4 <= plan.len()
    &&& n < plan[l.count_off as int] ==> l.steps_off + n * l.step_size + last + 4 > plan.len()
}

/// A relative-time plan passes if and only if every step that is there has a
/// timeout longer than its delay, or one of the two is zero: with `t` and `d` the
/// little-endian numbers at the step's timeout and delay, `t == 0`, `d == 0` or
/// `t > d`. Otherwise the refusal names the first step for which that is not so,
/// with its timeout and its delay.
pub proof fn plans_pass_iff_timeouts_outlast_delays(
    dicts: StructDictionary,
    bytes: Seq<u8>,
    plan: Seq<u8>,
    l: PlanLayout,
    n: int,
)
    requires
        layout_of(dicts) == Some(l),
        carries(bytes, plan),
        plan.len() >= l.size,
        l.step_size > 0,
        l.type_off < plan.len(),
        l.count_off < plan.len(),
        plan[l.type_off as int] == 0,
        has_steps(l, plan, n),
    ensures
        plan_refusal(dicts, bytes) is None <==> forall|i: int|
            0 <= i < n ==> {
                let t = #[trigger] step_number(l, plan, i, l.timeout_off);
                let d = step_number(l, plan, i, l.delay_off);
                t == 0 || d == 0 || t > d
            },
        plan_refusal(dicts, bytes) matches Some(text) ==> exists|i: int|
            {
                let t = #[trigger] step_number(l, plan, i, l.timeout_off);
                let d = step_number(l, plan, i, l.delay_off);
                &&& 0 <= i < n
                &&& 0 < t <= d
                &&& text == refusal(i, t as u32, d as u32)
                &&& forall|j: int|
                    0 <= j < i ==> {
                        let u = #[trigger] step_number(l, plan, j, l.timeout_off);
                        let e = step_number(l, plan, j, l.delay_off);
                        u == 0 || e == 0 || u > e
                    }
            },
{
    assert(plan_body(bytes) == plan);
    let count = plan[l.count_off as int] as int;
    search_finds_the_first(l, plan, 0, n, count);
    assert forall|i: int| 0 <= i < n implies {
        &&& #[trigger] step_number(l, plan, i, l.timeout_off) == step_timeout(l, plan, i)
        &&& step_number(l, plan, i, l.delay_off) == step_delay(l, plan, i)
    } by {
        steps_are_numbers(l, plan, i);
    }
    match first_defect(l, plan, 0, count) {
        Some(k) => {
            let t = step_number(l, plan, k, l.timeout_off);
            let d = step_number(l, plan, k, l.delay_off);
            assert(0 < t <= d);
        },
        None => {},
    }
}

proof fn steps_are_numbers(l: PlanLayout, plan: Seq<u8>, i: int)
    ensures
        step_number(l, plan, i, l.timeout_off) == step_timeout(l, plan, i),
        step_number(l, plan, i, l.delay_off) == step_delay(l, plan, i),
{
    crate::wire::words_are_the_numbers_of_their_bytes(plan, step_base(l, i) + l.timeout_off);
    crate::wire::words_are_the_numbers_of_their_bytes(plan, step_base(l, i) + l.delay_off);
}

/// The search finds the first step among those that are there whose timeout does
/// not outlast its delay.
proof fn search_finds_the_first(l: PlanLayout, plan: Seq<u8>, from: int, n: int, count: int)
    requires
        0 <= from <= n <= count,
        count == plan[l.count_off as int],
        has_steps(l, plan, n),
    ensures
        match first_defect(l, plan, from, count) {
            Some(k) => {
                &&& from <= k < n
                &&& step_defective(l, plan, k)
                &&& forall|i: int|
                    from <= i < k ==> {
                        let t = #[trigger] step_number(l, plan, i, l.timeout_off);
                        let d = step_number(l, plan, i, l.delay_off);
                        t == 0 || d == 0 || t > d
                    }
            },
            None => forall|i: int|
                from <= i < n ==> {
                    let t = #[trigger] step_number(l, plan, i, l.timeout_off);
                    let d = step_number(l, plan, i, l.delay_off);
                    t == 0 || d == 0 || t > d
                },
        },
    decreases n - from,
{
    if from < n {
        steps_are_numbers(l, plan, from);
        assert(step_present(l, plan, from));
        if !step_defective(l, plan, from) {
            search_finds_the_first(l, plan, from + 1, n, count);
        }
    } else if from < count {
        assert(!step_present(l, plan, from));
    }
}

/// A refusal begins with the step it is about.
pub proof fn refusals_name_the_step(i: int, timeout: u32, delay: u32)
    ensures
        has_prefix(
            refusal(i, timeout, delay),
            "step "@ + dec(i as nat) + ": timeoutCycles "@ + dec(timeout as nat),
        ),
{
    let head = "step "@ + dec(i as nat) + ": timeoutCycles "@ + dec(timeout as nat);
    let text = refusal(i, timeout, delay);
    assert(text.subrange(0, head.len() as int) =~= head);
}

/// Only relative-time plans that the dictionaries describe are judged: without a
/// layout, for a payload shorter than a plan, for steps without a size and for
/// every other type of plan, nothing is refused.
pub proof fn other_uploads_pass(dicts: StructDictionary, bytes: Seq<u8>, plan: Seq<u8>)
    requires
        carries(bytes, plan),
        layout_of(dicts) matches Some(l) ==> plan.len() < l.size || l.step_size == 0
            || plan[l.type_off as int] != 0,
    ensures
        plan_refusal(dicts, bytes) is None,
{
}

/// Whether `off` is the offset of the first field of that name.
pub open spec fn is_offset(fields: Seq<FieldDef>, name: Seq<char>, off: usize) -> bool {
    exists|k: int|
        0 <= k < fields.len() && (#[trigger] fields[k]).name@ == name && fields[k].offset == off
            && forall|j: int| 0 <= j < k ==> (#[trigger] fields[j]).name@ != name
}

proof fn offset_is_found(fields: Seq<FieldDef>, name: Seq<char>)
    ensures
        match offset_of(fields, name) {
            Some(off) => is_offset(fields, name, off),
            None => forall|k: int| 0 <= k < fields.len() ==> (#[trigger] fields[k]).name@ != name,
        },
    decreases fields.len(),
{
    if fields.len() > 0 && fields[0].name@ != name {
        let rest = fields.skip(1);
        offset_is_found(rest, name);
        match offset_of(fields, name) {
            Some(off) => {
                let k = choose|k: int|
                    0 <= k < rest.len() && (#[trigger] rest[k]).name@ == name && rest[k].offset
                        == off && forall|j: int|
                        0 <= j < k ==> (#[trigger] rest[j]).name@ != name;
                assert(fields[k + 1] == rest[k]);
                assert forall|j: int| 0 <= j < k + 1 implies (#[trigger] fields[j]).name@
                    != name by {
                    if j > 0 {
                        assert(fields[j] == rest[j - 1]);
                    }
                }
            },
            None => {
                assert forall|k: int| 0 <= k < fields.len() implies (#[trigger] fields[k]).name@
                    != name by {
                    if k > 0 {
                        assert(fields[k] == rest[k - 1]);
                    }
                }
            },
        }
    }
}

/// Whether component `c` describes sequences: it has the sequence struct and the
/// step struct.
pub open spec fn describes_plans(
    components: Seq<(Seq<char>, ComponentDict)>,
    c: int,
    seq: StructDef,
    step: StructDef,
) -> bool {
    &&& 0 <= c < components.len()
    &&& lookup(components[c].1.structs@, "StandaloneSequenceTprm"@) == Some(seq)
    &&& lookup(components[c].1.structs@, "StandaloneStepTprm"@) == Some(step)
}

proof fn plan_structs_are_found(components: Seq<(Seq<char>, ComponentDict)>)
    ensures
        match plan_structs(components) {
            Some((seq, step)) => exists|c: int|
                {
                    &&& #[trigger] describes_plans(components, c, seq, step)
                    &&& forall|b: int, x: StructDef, y: StructDef|
                        0 <= b < c ==> !#[trigger] describes_plans(components, b, x, y)
                },
            None => forall|c: int, x: StructDef, y: StructDef|
                !#[trigger] describes_plans(components, c, x, y),
        },
    decreases components.len(),
{
    if components.len() > 0 {
        match plan_structs_of(components[0].1) {
            Some((seq, step)) => {
                assert(describes_plans(components, 0, seq, step));
            },
            None => {
                let rest = components.skip(1);
                plan_structs_are_found(rest);
                assert forall|c: int, x: StructDef, y: StructDef| #[trigger]
                    describes_plans(components, c, x, y) implies c > 0 && describes_plans(
                    rest,
                    c - 1,
                    x,
                    y,
                ) by {
                    if c > 0 {
                        assert(rest[c - 1] == components[c]);
                    }
                }
                match plan_structs(components) {
                    Some((seq, step)) => {
                        let c = choose|c: int|
                            {
                                &&& #[trigger] describes_plans(rest, c, seq, step)
                                &&& forall|b: int, x: StructDef, y: StructDef|
                                    0 <= b < c ==> !#[trigger] describes_plans(rest, b, x, y)
                            };
                        assert(components[c + 1] == rest[c]);
                        assert(describes_plans(components, c + 1, seq, step));
                    },
                    None => {},
                }
            },
        }
    }
}

/// The layout of a plan is what the first component that describes sequences says:
/// the sizes of its two structs, and the offsets of the fields by their names.
/// There is none only when no component describes sequences, or a field is
/// missing.
pub proof fn layouts_come_from_the_dictionary(dicts: StructDictionary)
    ensures
        match layout_of(dicts) {
            Some(l) => exists|c: int, seq: StructDef, step: StructDef|
                {
                    &&& #[trigger] describes_plans(dicts.components@, c, seq, step)
                    &&& forall|b: int, x: StructDef, y: StructDef|
                        0 <= b < c ==> !#[trigger] describes_plans(dicts.components@, b, x, y)
                    &&& l.size == seq.size
                    &&& l.step_size == step.size
                    &&& is_offset(seq.fields@, "type"@, l.type_off)
                    &&& is_offset(seq.fields@, "stepCount"@, l.count_off)
                    &&& is_offset(seq.fields@, "steps"@, l.steps_off)
                    &&& is_offset(step.fields@, "delayCycles"@, l.delay_off)
                    &&& is_offset(step.fields@, "timeoutCycles"@, l.timeout_off)
                },
            None => forall|c: int, seq: StructDef, step: StructDef|
                {
                    &&& #[trigger] describes_plans(dicts.components@, c, seq, step)
                    &&& forall|b: int, x: StructDef, y: StructDef|
                        0 <= b < c ==> !#[trigger] describes_plans(dicts.components@, b, x, y)
                } ==> {
                    ||| lacks(seq.fields@, "type"@)
                    ||| lacks(seq.fields@, "stepCount"@)
                    ||| lacks(seq.fields@, "steps"@)
                    ||| lacks(step.fields@, "delayCycles"@)
                    ||| lacks(step.fields@, "timeoutCycles"@)
                },
        },
{
    let cs = dicts.components@;
    plan_structs_are_found(cs);
    match plan_structs(cs) {
        Some((seq, step)) => {
            offset_is_found(seq.fields@, "type"@);
            offset_is_found(seq.fields@, "stepCount"@);
            offset_is_found(seq.fields@, "steps"@);
            offset_is_found(step.fields@, "delayCycles"@);
            offset_is_found(step.fields@, "timeoutCycles"@);
            let c = choose|c: int|
                {
                    &&& #[trigger] describes_plans(cs, c, seq, step)
                    &&& forall|b: int, x: StructDef, y: StructDef|
                        0 <= b < c ==> !#[trigger] describes_plans(cs, b, x, y)
                };
            assert forall|d: int, x: StructDef, y: StructDef|
                {
                    &&& #[trigger] describes_plans(cs, d, x, y)
                    &&& forall|b: int, u: StructDef, v: StructDef|
                        0 <= b < d ==> !#[trigger] describes_plans(cs, b, u, v)
                } implies d == c && x == seq && y == step by {
                if c < d {
                    assert(!describes_plans(cs, c, seq, step));
                }
                if d < c {
                    assert(!describes_plans(cs, d, x, y));
                }
            }
        },
        None => {},
    }
}

/// Whether no field has that name.
pub open spec fn lacks(fields: Seq<FieldDef>, name: Seq<char>) -> bool {
    forall|k: int| 0 <= k < fields.len() ==> (#[trigger] fields[k]).name@ != name
}

} // verus!
