//! Bounded fault injection.

use kv_cache_evidence::event::{EventMedium, EventOwnership, Locality, RawKvEvent, StorageTier};
use kv_cache_evidence::evidence::CacheOwner;
use kv_cache_evidence::fault::{
    is_shadow_name, CacheLossFaultInjector, FaultPlan, FaultStage, GateValues, RouteTarget,
    ACK_VALUE, ENABLE_VALUE, MODEL_VALUE, SHADOW_ARM_VALUE, TRAFFIC_CLASS_VALUE,
};

const TARGET: &str = r#","route_target":{"worker_id":9,"dp_rank":2}"#;

fn plan(stage: &str, route: &str, cap: u32) -> String {
    format!(
        r#"{{"run_id":"run-7","seed":17,"sample_permyriad":10000,"max_injections":{cap},"stage":"{stage}"{route}}}"#
    )
}

/// Reads a plan; one with an unknown field is none.
fn parse(raw: &str) -> Option<FaultPlan> {
    let value: serde_json::Value = serde_json::from_str(raw).ok()?;
    let fields = value.as_object()?;
    let known = [
        "run_id",
        "seed",
        "sample_permyriad",
        "max_injections",
        "stage",
        "route_target",
    ];
    if fields.keys().any(|field| !known.contains(&field.as_str())) {
        return None;
    }
    let stage = match fields.get("stage")?.as_str()? {
        "physical_retention" => FaultStage::PhysicalRetention,
        "router_visibility" => FaultStage::RouterVisibility,
        "routing_choice" => FaultStage::RoutingChoice,
        _ => return None,
    };
    let route_target = match fields.get("route_target") {
        None => None,
        Some(target) => Some(RouteTarget {
            worker_id: target.get("worker_id")?.as_u64()?,
            dp_rank: u32::try_from(target.get("dp_rank")?.as_u64()?).ok()?,
        }),
    };
    Some(FaultPlan {
        run_id: fields.get("run_id")?.as_str()?.to_string(),
        seed: fields.get("seed")?.as_u64()?,
        sample_permyriad: u16::try_from(fields.get("sample_permyriad")?.as_u64()?).ok()?,
        max_injections: u32::try_from(fields.get("max_injections")?.as_u64()?).ok()?,
        stage,
        route_target,
    })
}

fn valid_gate(plan: &str) -> GateValues<'static> {
    GateValues {
        enable: Some(ENABLE_VALUE),
        acknowledgment: Some(ACK_VALUE),
        traffic_class: Some(TRAFFIC_CLASS_VALUE),
        shadow_arm: Some(SHADOW_ARM_VALUE),
        expected_shadow_arm: Some(SHADOW_ARM_VALUE),
        namespace: Some("prod-inference"),
        expected_namespace: Some("prod-inference"),
        deployment: Some("deepseek-shadow-flash-a"),
        expected_deployment: Some("deepseek-shadow-flash-a"),
        model: Some(MODEL_VALUE),
        expected_model: Some(MODEL_VALUE),
        plan: parse(plan),
    }
}

fn store(hashes: &[u64], medium: Option<&str>) -> RawKvEvent {
    RawKvEvent::BlockStored {
        block_hashes: hashes.to_vec(),
        parent_block_hash: None,
        token_count: hashes.len(),
        block_size: 1,
        medium: match medium {
            None => EventMedium::Unspecified,
            Some("CPU") => EventMedium::Tier(StorageTier::HostPinned),
            Some(_) => EventMedium::Unrecognized,
        },
        group_idx: Some(0),
        locality: Some(Locality::Local),
        ownership: EventOwnership::Framework,
    }
}

fn owner(worker_id: u64, dp_rank: u32) -> CacheOwner {
    CacheOwner { worker_id, dp_rank }
}

#[test]
fn every_flash_a_shadow_gate_factor_is_required_exactly() {
    let plan = plan("routing_choice", TARGET, 1);
    assert_eq!(
        CacheLossFaultInjector::from_values(valid_gate(&plan)).armed_stage(),
        Some(FaultStage::RoutingChoice)
    );

    let invalid = [
        GateValues {
            enable: None,
            ..valid_gate(&plan)
        },
        GateValues {
            acknowledgment: Some("ack"),
            ..valid_gate(&plan)
        },
        GateValues {
            traffic_class: Some("shadow"),
            ..valid_gate(&plan)
        },
        GateValues {
            shadow_arm: Some("flash-b"),
            expected_shadow_arm: Some("flash-b"),
            ..valid_gate(&plan)
        },
        GateValues {
            expected_shadow_arm: Some("flash-b"),
            ..valid_gate(&plan)
        },
        GateValues {
            namespace: None,
            expected_namespace: None,
            ..valid_gate(&plan)
        },
        GateValues {
            expected_namespace: Some("other"),
            ..valid_gate(&plan)
        },
        GateValues {
            deployment: None,
            expected_deployment: None,
            ..valid_gate(&plan)
        },
        GateValues {
            deployment: Some("deepseek-production-flash-a"),
            expected_deployment: Some("deepseek-production-flash-a"),
            ..valid_gate(&plan)
        },
        GateValues {
            expected_deployment: Some("other-shadow"),
            ..valid_gate(&plan)
        },
        GateValues {
            model: Some("other/model"),
            expected_model: Some("other/model"),
            ..valid_gate(&plan)
        },
        GateValues {
            expected_model: Some("other/model"),
            ..valid_gate(&plan)
        },
    ];
    for gate in invalid {
        assert_eq!(
            CacheLossFaultInjector::from_values(gate).armed_stage(),
            None
        );
    }
}

#[test]
fn existing_gpu_store_traffic_is_sampled_deterministically_and_capped() {
    let plan = plan("physical_retention", "", 1);
    let mut first = CacheLossFaultInjector::from_values(valid_gate(&plan));
    let mut second = CacheLossFaultInjector::from_values(valid_gate(&plan));

    assert!(first.inject_physical_retention(&store(&[11, 12], None)));
    assert!(second.inject_physical_retention(&store(&[11, 12], None)));
    assert!(!first.inject_physical_retention(&store(&[13], Some("CPU"))));
    assert!(!first.suppress_router_visibility(&store(&[13], None)));
    assert!(!first.inject_physical_retention(&store(&[13], None)));
    assert_eq!(first.injection_count(), 1);
}

#[test]
fn route_sampling_uses_existing_request_ids_and_is_hard_capped() {
    let plan = plan("routing_choice", TARGET, 1);
    let mut first = CacheLossFaultInjector::from_values(valid_gate(&plan));
    let mut second = CacheLossFaultInjector::from_values(valid_gate(&plan));

    assert_eq!(
        first.route_target("mirrored-request-a"),
        Some(owner(9, 2))
    );
    assert_eq!(
        second.route_target("mirrored-request-a"),
        Some(owner(9, 2))
    );
    assert_eq!(first.route_target("mirrored-request-b"), None);
    assert_eq!(first.injection_count(), 1);
}

#[test]
fn partial_sampling_is_reproducible_for_existing_mirrored_requests() {
    let plan = r#"{"run_id":"run-7","seed":991,"sample_permyriad":5000,"max_injections":32,"stage":"routing_choice","route_target":{"worker_id":9,"dp_rank":2}}"#;
    let mut first = CacheLossFaultInjector::from_values(valid_gate(plan));
    let mut second = CacheLossFaultInjector::from_values(valid_gate(plan));

    let first_decisions: Vec<_> = (0..32)
        .map(|index| first.route_target(&format!("mirrored-request-{index}")))
        .collect();
    let second_decisions: Vec<_> = (0..32)
        .map(|index| second.route_target(&format!("mirrored-request-{index}")))
        .collect();
    assert_eq!(first_decisions, second_decisions);
    assert!(first_decisions.iter().any(Option::is_some));
    assert!(first_decisions.iter().any(Option::is_none));
}

#[test]
fn samples_are_taken_of_run_stage_and_subject_in_one_stream() {
    let plan = r#"{"run_id":"run-7","seed":991,"sample_permyriad":5000,"max_injections":32,"stage":"routing_choice","route_target":{"worker_id":9,"dp_rank":2}}"#;
    let mut injector = CacheLossFaultInjector::from_values(valid_gate(plan));
    for index in 0..16 {
        let request = format!("mirrored-request-{index}");
        let mut hasher = xxhash_rust::xxh3::Xxh3::with_seed(991);
        hasher.update(b"run-7");
        hasher.update(&[3]);
        hasher.update(request.as_bytes());
        let taken = hasher.digest() % 10_000 < 5_000;
        assert_eq!(injector.route_target(&request).is_some(), taken);
    }
}

#[test]
fn injections_stop_at_the_hard_cap() {
    let plan = plan("routing_choice", TARGET, 4);
    let mut injector = CacheLossFaultInjector::from_values(valid_gate(&plan));
    let injected = (0..16)
        .filter(|index| {
            injector
                .route_target(&format!("mirrored-request-{index}"))
                .is_some()
        })
        .count();
    assert_eq!(injected, 4);
    assert_eq!(injector.injection_count(), 4);
}

#[test]
fn invalid_or_multi_stage_plans_remain_inert() {
    let closed = GateValues {
        enable: None,
        acknowledgment: None,
        traffic_class: None,
        shadow_arm: None,
        expected_shadow_arm: None,
        namespace: None,
        expected_namespace: None,
        deployment: None,
        expected_deployment: None,
        model: None,
        expected_model: None,
        plan: None,
    };
    assert_eq!(
        CacheLossFaultInjector::from_values(closed).armed_stage(),
        None
    );
    for plan in [
        r#"{"run_id":"run","seed":1,"sample_permyriad":0,"max_injections":1,"stage":"router_visibility"}"#,
        r#"{"run_id":"run","seed":1,"sample_permyriad":10000,"max_injections":33,"stage":"router_visibility"}"#,
        r#"{"run_id":"run","seed":1,"sample_permyriad":10000,"max_injections":1,"stage":"routing_choice"}"#,
        r#"{"run_id":"run","seed":1,"sample_permyriad":10000,"max_injections":1,"stage":"physical_retention","route_target":{"worker_id":1,"dp_rank":0}}"#,
        r#"{"run_id":"run","seed":1,"sample_permyriad":10000,"max_injections":1,"stage":"router_visibility","unknown":true}"#,
    ] {
        assert_eq!(
            CacheLossFaultInjector::from_values(valid_gate(plan)).armed_stage(),
            None
        );
    }
}

#[test]
fn run_ids_are_short_and_plain() {
    let valid = FaultPlan {
        run_id: "Run_7-a".to_string(),
        seed: 1,
        sample_permyriad: 10_000,
        max_injections: 32,
        stage: FaultStage::RouterVisibility,
        route_target: None,
    };
    assert!(valid.is_valid());
    for run_id in ["", "run 7", "r\u{e9}", &"x".repeat(65)] {
        assert!(!FaultPlan {
            run_id: run_id.to_string(),
            ..valid.clone()
        }
        .is_valid());
    }
    assert!(FaultPlan {
        run_id: "x".repeat(64),
        ..valid.clone()
    }
    .is_valid());
    assert!(!FaultPlan {
        sample_permyriad: 10_001,
        ..valid
    }
    .is_valid());
}

#[test]
fn shadow_must_be_a_word_of_its_own() {
    for name in ["shadow", "a-Shadow", "SHADOW.b", "x/shadow_y"] {
        assert!(is_shadow_name(name));
    }
    for name in ["", "shado", "shadows", "ashadow", "shadow1", "sh-adow"] {
        assert!(!is_shadow_name(name));
    }
}

#[test]
fn stages_have_labels_and_marks() {
    for (stage, label, mark) in [
        (FaultStage::PhysicalRetention, "physical_retention", 1),
        (FaultStage::RouterVisibility, "router_visibility", 2),
        (FaultStage::RoutingChoice, "routing_choice", 3),
    ] {
        assert_eq!(stage.label(), label);
        assert_eq!(stage.discriminator(), mark);
    }
}

#[test]
fn stages_have_labels_and_marks_of_their_own() {
    let stages = FaultStage::ALL.map(|stage| (stage.label(), stage.discriminator()));
    assert_eq!(
        stages,
        [
            ("physical_retention", 1),
            ("router_visibility", 2),
            ("routing_choice", 3),
        ]
    );
}
