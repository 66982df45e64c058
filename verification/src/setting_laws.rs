//! What settings, envelopes and fault plans mean, told character by character.

use vstd::bytes::spec_u64_to_le_bytes;
use vstd::prelude::*;
use vstd::utf8::encode_utf8;

use crate::conversion_laws::is_gpu_medium;
use crate::event::RawKvEvent;
use crate::evidence::CacheOwner;
use crate::fault::{
    has_shadow_word, hash_bytes, is_run_id, FaultPlan, FaultStage, GateValues, InjectorView,
};
use crate::listener::{big_endian, source_observation, SourceSequenceObservation};
use crate::protocols::xxh3_64;
use crate::settings::{
    decimal, digits_of, is_affirmative, is_number, nanos, setting,
    DEFAULT_CACHE_LOSS_BARRIER_PENDING, DEFAULT_CACHE_LOSS_BARRIER_TIMEOUT_MS,
    DEFAULT_CACHE_LOSS_EVIDENCE_FRESHNESS_MS, DEFAULT_CACHE_LOSS_HISTORY_BLOCKS,
    DEFAULT_COLD_EPOCH_READINESS_MS,
};

verus! {

// ---- numbers ----

/// A digit behind a number makes it ten times as large and adds its value.
pub proof fn law_digits_are_decimal(digits: Seq<char>, last: char)
    requires
        '0' <= last <= '9',
    ensures
        decimal(Seq::empty()) == 0,
        decimal(digits.push(last)) == 10 * decimal(digits) + (last as int - '0' as int),
{
    assert(digits.push(last).drop_last() =~= digits);
}

/// Only digits.
pub open spec fn all_digits(text: Seq<char>) -> bool {
    forall|i: int| #![trigger text[i]] 0 <= i < text.len() ==> '0' <= text[i] <= '9'
}

/// A setting is the number that its text writes in digits, one at least, with
/// or without a plus sign, if that is positive and not too large; otherwise it
/// is the default.
pub proof fn law_setting_is_its_number_or_the_default(text: &str, max: u64, default: u64)
    ensures
        ({
            let signed = text@.len() > 0 && text@[0] == '+';
            let digits = if signed {
                text@.skip(1)
            } else {
                text@
            };
            let good = digits.len() > 0 && all_digits(digits) && 0 < decimal(digits) <= max;
            &&& good ==> setting(Some(text), max, default) == decimal(digits)
            &&& !good ==> setting(Some(text), max, default) == default
            &&& setting(None, max, default) == default
            &&& is_number(text@, max) <==> digits.len() > 0 && all_digits(digits) && decimal(
                digits,
            ) <= max
        }),
{
    let digits = digits_of(text@);
    if all_digits(digits) {
        assert forall|i: int| 0 <= i < digits.len() implies crate::settings::is_digit(
            #[trigger] digits[i],
        ) by {}
    }
    if is_number(text@, max) {
        assert forall|i: int| #![trigger digits[i]] 0 <= i < digits.len() implies '0' <= digits[i]
            <= '9' by {
            assert(crate::settings::is_digit(digits[i]));
        }
    }
}

/// A million blocks of history are kept, evidence is fresh for five seconds, a
/// cut waits a quarter of a second, a thousand and twenty-four cuts may wait,
/// and a cold epoch has two minutes to get ready, unless set otherwise.
pub proof fn law_defaults(max: u64)
    ensures
        setting(None, max, DEFAULT_CACHE_LOSS_HISTORY_BLOCKS as u64) == 1_000_000,
        nanos(setting(None, max, DEFAULT_CACHE_LOSS_EVIDENCE_FRESHNESS_MS)) == 5_000_000_000,
        nanos(setting(None, max, DEFAULT_CACHE_LOSS_BARRIER_TIMEOUT_MS)) == 250_000_000,
        setting(None, max, DEFAULT_CACHE_LOSS_BARRIER_PENDING as u64) == 1_024,
        nanos(setting(None, max, DEFAULT_COLD_EPOCH_READINESS_MS)) == 120_000_000_000,
{
}

/// A millisecond has a million nanoseconds, up to the largest number.
pub proof fn law_millis_are_nanos(millis: u64)
    ensures
        millis <= u64::MAX / 1_000_000 ==> nanos(millis) == millis * 1_000_000,
        millis > u64::MAX / 1_000_000 ==> nanos(millis) == u64::MAX,
{
}

/// The code of a letter in lower case; of any other character its own.
pub open spec fn lower_code(c: char) -> int {
    if 'A' <= c <= 'Z' {
        c as int + 32
    } else {
        c as int
    }
}

/// The text is the lower-case word, in letters of either case.
pub open spec fn is_word(text: Seq<char>, word: Seq<char>) -> bool {
    &&& text.len() == word.len()
    &&& forall|i: int|
        #![trigger text[i]]
        0 <= i < text.len() ==> lower_code(text[i]) == word[i] as int
}

/// The word has only digits and lower-case letters.
pub open spec fn is_plain(word: Seq<char>) -> bool {
    forall|i: int|
        #![trigger word[i]]
        0 <= i < word.len() ==> '0' <= word[i] <= '9' || 'a' <= word[i] <= 'z'
}

/// Something is switched on by `1`, `true` or `yes`, in letters of either case,
/// and by nothing else.
pub proof fn law_switched_on_by_three_words(value: Seq<char>)
    ensures
        is_affirmative(value) <==> is_word(value, "1"@) || is_word(value, "true"@) || is_word(
            value,
            "yes"@,
        ),
{
    reveal_strlit("1");
    reveal_strlit("true");
    reveal_strlit("yes");
    lemma_word(value, "1"@);
    lemma_word(value, "true"@);
    lemma_word(value, "yes"@);
}

proof fn lemma_word(text: Seq<char>, word: Seq<char>)
    requires
        is_plain(word),
    ensures
        crate::settings::reads(text, word) <==> is_word(text, word),
{
    if crate::settings::reads(text, word) {
        assert forall|i: int| #![trigger text[i]] 0 <= i < text.len() implies lower_code(text[i])
            == word[i] as int by {
            assert(crate::settings::reads_as(text[i], word[i]));
            assert('0' <= word[i] <= '9' || 'a' <= word[i] <= 'z');
        }
    }
    if is_word(text, word) {
        assert forall|i: int| 0 <= i < word.len() implies crate::settings::reads_as(
            #[trigger] text[i],
            word[i],
        ) by {
            assert(lower_code(text[i]) == word[i] as int);
            assert('0' <= word[i] <= '9' || 'a' <= word[i] <= 'z');
        }
    }
}

// ---- envelopes ----

/// The first of the eight bytes of a cursor weighs most.
pub proof fn law_cursor_is_big_endian(bytes: Seq<u8>)
    requires
        bytes.len() == 8,
    ensures
        big_endian(bytes) == bytes[0] * 0x100_0000_0000_0000 + bytes[1] * 0x1_0000_0000_0000
            + bytes[2] * 0x100_0000_0000 + bytes[3] * 0x1_0000_0000 + bytes[4] * 0x100_0000
            + bytes[5] * 0x1_0000 + bytes[6] * 0x100 + bytes[7],
{
    reveal_with_fuel(big_endian, 9);
}

/// A cursor follows if it is the next one, or the first; it leaves a gap of as
/// many as are missing if it is later, and is stale if it is earlier.
pub proof fn law_cursor_follows_or_leaves_a_gap(last: Option<u64>, sequence: u64)
    ensures
        ({
            let seen = source_observation(last, sequence);
            let next = match last {
                None => 0int,
                Some(last) => last + 1,
            };
            &&& sequence == next ==> seen == SourceSequenceObservation::Contiguous
            &&& sequence > next ==> seen is Gap && next + seen->missing == sequence
            &&& sequence < next && next <= u64::MAX ==> seen == SourceSequenceObservation::Stale
            &&& next > u64::MAX ==> (seen == SourceSequenceObservation::Contiguous <==> sequence
                == u64::MAX) && (seen == SourceSequenceObservation::Stale <==> sequence
                < u64::MAX)
        }),
{
}

// ---- fault plans ----

/// A fault plan asks for a named run, one sample in ten thousand at least, one
/// to thirty-two injections, and for a target exactly if it is about routing.
pub proof fn law_plan_is_bounded(plan: FaultPlan)
    ensures
        plan.valid() <==> {
            &&& is_run_id(plan.run_id@)
            &&& 0 < plan.sample_permyriad <= 10_000
            &&& 0 < plan.max_injections <= 32
            &&& plan.stage == FaultStage::RoutingChoice ==> plan.route_target is Some
            &&& plan.stage != FaultStage::RoutingChoice ==> plan.route_target is None
        },
{
}

/// A run is named by one to sixty-four letters, digits, dashes and underscores.
pub proof fn law_run_id_is_plain(run_id: Seq<char>)
    ensures
        is_run_id(run_id) <==> {
            &&& 0 < run_id.len() <= 64
            &&& forall|i: int|
                #![trigger run_id[i]]
                0 <= i < run_id.len() ==> '0' <= run_id[i] <= '9' || 'a' <= run_id[i] <= 'z'
                    || 'A' <= run_id[i] <= 'Z' || run_id[i] == '-' || run_id[i] == '_'
        },
{
    if is_run_id(run_id) {
        assert forall|i: int| #![trigger run_id[i]] 0 <= i < run_id.len() implies '0' <= run_id[i]
            <= '9' || 'a' <= run_id[i] <= 'z' || 'A' <= run_id[i] <= 'Z' || run_id[i] == '-'
            || run_id[i] == '_' by {
            assert(crate::fault::is_alphanumeric(run_id[i]) || run_id[i] == '-' || run_id[i]
                == '_');
        }
    }
}

/// A name is that of a shadow if the word stands in it on its own, in letters
/// of either case.
pub proof fn law_shadow_is_named_by_a_word(name: Seq<char>)
    ensures
        has_shadow_word(name) <==> exists|at: int| #[trigger] is_lone_shadow(name, at),
{
    reveal_strlit("shadow");
    assert forall|at: int| 0 <= at && at + 6 <= name.len() implies (crate::settings::reads(
        name.subrange(at, at + 6),
        "shadow"@,
    ) <==> #[trigger] is_word(name.subrange(at, at + 6), "shadow"@)) by {
        lemma_word(name.subrange(at, at + 6), "shadow"@);
    }
    if has_shadow_word(name) {
        let at = choose|at: int| crate::fault::shadow_at(name, at);
        assert(crate::fault::shadow_at(name, at));
        lemma_word(name.subrange(at, at + 6), "shadow"@);
        assert(is_lone_shadow(name, at));
    }
    if exists|at: int| #[trigger] is_lone_shadow(name, at) {
        let at = choose|at: int| #[trigger] is_lone_shadow(name, at);
        lemma_word(name.subrange(at, at + 6), "shadow"@);
        assert(crate::fault::shadow_at(name, at));
    }
}

pub open spec fn is_letter_or_digit(c: char) -> bool {
    '0' <= c <= '9' || 'a' <= c <= 'z' || 'A' <= c <= 'Z'
}

/// The word stands at the place, with no letter or digit next to it.
pub open spec fn is_lone_shadow(name: Seq<char>, at: int) -> bool {
    &&& 0 <= at
    &&& at + 6 <= name.len()
    &&& is_word(name.subrange(at, at + 6), "shadow"@)
    &&& at > 0 ==> !is_letter_or_digit(name[at - 1])
    &&& at + 6 < name.len() ==> !is_letter_or_digit(name[at + 6])
}

pub open spec fn is_given(text: Option<&str>, expected: Seq<char>) -> bool {
    text is Some && text->0@ == expected
}

/// Both are given, and alike.
pub open spec fn agree(text: Option<&str>, expected: Option<&str>) -> bool {
    text is Some && expected is Some && text->0@ == expected->0@
}

/// Faults are injected only where every value says so: the switch and the
/// acknowledgment, mirrored traffic, the shadow arm and model, and a namespace
/// and a shadow deployment that are those expected.
pub proof fn law_faults_need_every_word(values: GateValues<'_>)
    ensures
        values.is_open() <==> {
            &&& is_given(values.enable, "shadow-only-v1"@)
            &&& is_given(values.acknowledgment, "I_ACKNOWLEDGE_SHADOW_ONLY_CACHE_LOSS_V1"@)
            &&& is_given(values.traffic_class, "mirrored-shadow"@)
            &&& is_given(values.shadow_arm, "flash-a"@)
            &&& agree(values.shadow_arm, values.expected_shadow_arm)
            &&& agree(values.namespace, values.expected_namespace)
            &&& agree(values.deployment, values.expected_deployment)
            &&& has_shadow_word(values.deployment->0@)
            &&& is_given(values.model, "deepseek-ai/deepseek-v4-flash-0731"@)
            &&& agree(values.model, values.expected_model)
        },
{
}

/// What is sampled: the run, the stage and the subject, in this order.
pub proof fn law_sample_is_of_run_stage_and_subject(plan: FaultPlan, subject: Seq<u8>)
    ensures
        plan.sample_bytes(subject) == encode_utf8(plan.run_id@) + seq![
            match plan.stage {
                FaultStage::PhysicalRetention => 1u8,
                FaultStage::RouterVisibility => 2u8,
                FaultStage::RoutingChoice => 3u8,
            },
        ] + subject,
{
    assert(plan.sample_bytes(subject) =~= encode_utf8(plan.run_id@) + seq![plan.stage.mark()]
        + subject);
}

/// The bytes of hashes are those of each hash, lowest first, one hash behind the
/// other.
pub proof fn law_hash_bytes_are_in_order(hashes: Seq<u64>, hash: u64)
    ensures
        hash_bytes(Seq::empty()) == Seq::<u8>::empty(),
        hash_bytes(hashes.push(hash)) == hash_bytes(hashes) + spec_u64_to_le_bytes(hash),
{
    assert(hashes.push(hash).drop_last() =~= hashes);
}

/// An injection is reserved exactly if a plan is armed, has injections left, and
/// the digest falls into its sample.
pub proof fn law_injection_is_reserved_in_the_sample(injector: InjectorView, digest: u64)
    ensures
        ({
            let (after, taken) = injector.reserve(digest);
            &&& taken <==> injector.plan is Some && injector.injections
                < injector.plan->0.max_injections && digest % 10_000
                < injector.plan->0.sample_permyriad
            &&& after.plan == injector.plan
            &&& after.injections == injector.injections + if taken {
                1nat
            } else {
                0nat
            }
        }),
{
}

/// Stores of GPU blocks are sampled by their hashes, and only for the stage that
/// the plan is about.
pub proof fn law_gpu_stores_are_sampled(
    injector: InjectorView,
    stage: FaultStage,
    event: RawKvEvent,
)
    ensures
        ({
            let armed = injector.plan is Some && injector.plan->0.stage == stage;
            match event {
                RawKvEvent::BlockStored { block_hashes, medium, .. } => if armed && is_gpu_medium(
                    medium,
                ) && block_hashes@.len() > 0 {
                    injector.sample_store(stage, event) == injector.reserve(
                        xxh3_64(
                            injector.plan->0.sample_bytes(hash_bytes(block_hashes@)),
                            injector.plan->0.seed,
                        ),
                    )
                } else {
                    injector.sample_store(stage, event) == (injector, false)
                },
                _ => injector.sample_store(stage, event) == (injector, false),
            }
        }),
{
    if let RawKvEvent::BlockStored { medium, .. } = event {
        crate::conversion_laws::law_media_name_tiers(medium);
    }
}

/// A request is sent to the planned target if the plan is about routing and the
/// request falls into its sample.
pub proof fn law_route_target_is_the_planned_one(injector: InjectorView, context_id: Seq<char>)
    requires
        injector.inv(),
    ensures
        ({
            let (after, target) = injector.route_target(context_id);
            let plan = injector.plan->0;
            let armed = injector.plan is Some && plan.stage == FaultStage::RoutingChoice;
            let sampled = injector.reserve(
                xxh3_64(plan.sample_bytes(encode_utf8(context_id)), plan.seed),
            );
            &&& !armed ==> after == injector && target is None
            &&& armed ==> after == sampled.0 && (target is Some <==> sampled.1)
            &&& target is Some ==> target == Some(
                CacheOwner {
                    worker_id: plan.route_target->0.worker_id,
                    dp_rank: plan.route_target->0.dp_rank,
                },
            )
        }),
{
}

} // verus!
