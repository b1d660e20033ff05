use forgejo_actions_orchestrator::config::{Class, PerProvider, Provider};
use forgejo_actions_orchestrator::http::{Call, Method, Payload, Reply};
use forgejo_actions_orchestrator::json::Json;
use forgejo_actions_orchestrator::provider::hetzner::{Hetzner, Next, Order, ServerType, TypeLocation};
use forgejo_actions_orchestrator::provider::scaleway::{Scaleway, Server, Volume};
use forgejo_actions_orchestrator::provider::vultr::Vultr;
use forgejo_actions_orchestrator::provider::walk::Walk;
use forgejo_actions_orchestrator::provider::{
    accepted, cherry, clip, expect_gone, gcore, hetzner, keep_ours, newborn, placements, scaleway,
    present, timestamp, undecoded, vultr, Clouds, Found, Moment,
};
use forgejo_actions_orchestrator::table::Table;

fn get<'a>(body: &'a Json, key: &str) -> Option<&'a Json> {
    match body {
        Json::Object(fields) => fields
            .iter()
            .find(|(name, _)| name == key)
            .map(|(_, value)| value),
        _ => None,
    }
}

fn at(body: &Json, place: usize) -> &Json {
    match body {
        Json::List(items) => &items[place],
        other => panic!("{other:?}"),
    }
}

fn text<'a>(body: &'a Json, key: &str) -> &'a str {
    match get(body, key) {
        Some(Json::Text(value)) => value,
        other => panic!("{key}: {other:?}"),
    }
}

fn unsigned(body: &Json, key: &str) -> u64 {
    match get(body, key) {
        Some(Json::Unsigned(value)) => *value,
        other => panic!("{key}: {other:?}"),
    }
}

fn flag(body: &Json, key: &str) -> bool {
    match get(body, key) {
        Some(Json::Bool(value)) => *value,
        other => panic!("{key}: {other:?}"),
    }
}

fn body_of(call: &Call) -> &Json {
    match &call.payload {
        Payload::Json(body) => body,
        other => panic!("{other:?}"),
    }
}

fn texts(items: &[&str]) -> Vec<String> {
    items.iter().map(|item| item.to_string()).collect()
}

fn reply(code: u16, body: &str) -> Reply {
    Reply {
        code,
        status: format!("{code} Whatever"),
        body: body.into(),
    }
}

fn found(id: &str, name: &str, created_at: Option<&str>) -> Found {
    Found {
        id: id.into(),
        name: name.into(),
        created_at: created_at.map(str::to_owned),
    }
}

fn class() -> Class {
    Class {
        labels: vec!["check".into()],
        provider: Provider::Hetzner,
        plans: vec!["cx43".into(), "cpx42".into()],
        locations: vec!["fsn1".into(), "nbg1".into()],
        image: "snapshot".into(),
        ssh_key: None,
        lifetime_minutes: 90,
        job_timeout_minutes: 70,
        allow_fork_pull_request: true,
        allowed_events: vec!["pull_request".into()],
    }
}

#[test]
fn walks_every_plan_against_every_location() {
    let combos: Vec<_> = placements(&class())
        .iter()
        .map(|p| format!("{}/{}", p.plan, p.location))
        .collect();
    assert_eq!(
        combos,
        vec!["cx43/fsn1", "cx43/nbg1", "cpx42/fsn1", "cpx42/nbg1"]
    );
}

#[test]
fn parses_each_provider_timestamp_format() {
    for value in [
        "2026-07-28T22:31:00+00:00",
        "2026-07-28T22:31:00Z",
        "2026-07-28T22:31:00.123456Z",
    ] {
        assert!(timestamp(value).is_some(), "{value}");
    }
    assert!(timestamp("").is_none());
    assert!(timestamp("not a time").is_none());
}

#[test]
fn a_timestamp_counts_from_the_epoch() {
    assert_eq!(
        timestamp("1970-01-02T00:00:01.5+01:00"),
        Some(Moment {
            seconds: 86_401 - 3_600,
            nanos: 500_000_000
        })
    );
}

#[test]
fn clips_a_long_body() {
    assert_eq!(clip(&"é".repeat(300)), "é".repeat(200));
    assert_eq!(clip("short"), "short");
    assert_eq!(
        undecoded(&reply(200, &"x".repeat(300)), "w"),
        format!("w: decoding {}", "x".repeat(200))
    );
}

#[test]
fn holds_answers_to_success() {
    assert!(accepted(&reply(200, ""), "w").is_ok());
    assert_eq!(
        accepted(&reply(404, "gone"), "w").unwrap_err(),
        "w: HTTP 404 Whatever: gone"
    );
    assert!(expect_gone(&reply(404, "gone"), "w").is_ok());
    assert!(expect_gone(&reply(202, ""), "w").is_ok());
    assert_eq!(
        expect_gone(&reply(500, "boom"), "w").unwrap_err(),
        "w: HTTP 500 Whatever: boom"
    );
    assert_eq!(present(&reply(404, "gone"), "w"), Ok(false));
    assert_eq!(present(&reply(200, "{}"), "w"), Ok(true));
    assert_eq!(
        present(&reply(500, "boom"), "w").unwrap_err(),
        "w: HTTP 500 Whatever: boom"
    );
}

#[test]
fn keeps_only_machines_of_the_prefix() {
    let listed = [
        found("1", "ci-orc-check-a", Some("1970-01-01T00:00:07Z")),
        found("2", "someone-else", None),
        found("3", "ci-orc-check-b", Some("never")),
    ];
    let ours = keep_ours(&listed, "ci-orc", Some("fr-par-1"));
    assert_eq!(ours.len(), 2);
    assert_eq!(ours[0].id, "fr-par-1/1");
    assert_eq!(ours[0].created_at, Some(Moment { seconds: 7, nanos: 0 }));
    assert_eq!(ours[1].id, "fr-par-1/3");
    assert_eq!(ours[1].name, "ci-orc-check-b");
    assert_eq!(ours[1].created_at, None);
    assert_eq!(keep_ours(&listed, "ci-orc", None)[0].id, "1");
}

#[test]
fn a_new_machine_ages_from_its_creation() {
    let now = Moment { seconds: 99, nanos: 1 };
    let told = newborn(&found("1", "n", Some("1970-01-01T00:00:07Z")), None, now);
    assert_eq!(told.created_at, Some(Moment { seconds: 7, nanos: 0 }));
    let untold = newborn(&found("1", "n", None), Some("30"), now);
    assert_eq!(untold.created_at, Some(now));
    assert_eq!(untold.id, "30/1");
}

#[test]
fn a_provider_without_credentials_is_named() {
    let mut backends = PerProvider::new();
    backends.insert(Provider::Vultr, 5);
    backends.insert(Provider::Cherry, 6);
    let clouds = Clouds { backends };
    assert_eq!(clouds.kinds(), vec![Provider::Cherry, Provider::Vultr]);
    assert_eq!(clouds.get(Provider::Vultr), Ok(&5));
    assert_eq!(
        clouds.get(Provider::Hetzner),
        Err("no credentials loaded for Hetzner".to_string())
    );
}

#[test]
fn a_walk_goes_page_by_page_and_location_by_location() {
    let mut walk = Walk::new("ci-orc", &texts(&["fr-par-1", "nl-ams-1"]));
    assert_eq!(walk.here(), Some("fr-par-1"));
    walk.turn(&[found("a", "ci-orc-1", None)], Some(2));
    assert_eq!((walk.here(), walk.page), (Some("fr-par-1"), 2));
    walk.turn(&[found("b", "other", None)], None);
    assert_eq!((walk.here(), walk.page), (Some("nl-ams-1"), 1));
    walk.turn(&[found("c", "ci-orc-2", None)], None);
    assert_eq!(walk.here(), None);
    let ids: Vec<&str> = walk.machines.iter().map(|m| m.id.as_str()).collect();
    assert_eq!(ids, vec!["fr-par-1/a", "nl-ams-1/c"]);
}

#[test]
fn a_listing_without_locations_keeps_its_ids() {
    let mut walk = Walk::single("ci-orc");
    walk.turn(&[found("a", "ci-orc-1", None)], Some(4));
    assert_eq!(walk.page, 4);
    walk.turn(&[], None);
    assert_eq!(walk.here(), None);
    assert_eq!(walk.machines[0].id, "a");
}

// Cherry Servers

#[test]
fn cherry_orders_a_server() {
    let cherry = cherry::Cherry {
        token: "tok".into(),
        project_id: "42".into(),
    };
    let call = cherry.create("n", "p", "LT-Siauliai", "img", Some("7"), "#cloud-config\n");
    assert_eq!(call.method, Method::Post);
    assert_eq!(call.url, "https://api.cherryservers.com/v1/projects/42/servers");
    assert_eq!(call.credential.1, "Bearer tok");
    let body = body_of(&call);
    assert_eq!(text(body, "hostname"), "n");
    assert_eq!(text(body, "region"), "LT-Siauliai");
    assert_eq!(text(body, "user_data"), "I2Nsb3VkLWNvbmZpZwo=");
    assert!(matches!(at(get(body, "ssh_keys").unwrap(), 0), Json::Text(key) if key == "7"));
    let keyless = cherry::create_body("n", "p", "l", "i", None, "u");
    assert!(get(&keyless, "ssh_keys").is_none());
    assert_eq!(cherry.destroy("9").url, "https://api.cherryservers.com/v1/servers/9");
    assert_eq!(cherry.list().method, Method::Get);
}

// Vultr

#[test]
fn vultr_wants_the_number_of_a_system() {
    let vultr = Vultr { token: "tok".into() };
    let call = vultr.create("n", "p", "ams", "2136", None, "u").unwrap();
    assert!(matches!(get(body_of(&call), "os_id"), Some(Json::Signed(2136))));
    assert_eq!(text(body_of(&call), "label"), "n");
    assert!(!flag(body_of(&call), "activation_email"));
    for (image, cause) in [
        ("debian", "invalid digit found in string"),
        ("", "cannot parse integer from empty string"),
        ("9223372036854775808", "number too large to fit in target type"),
    ] {
        let bad = vultr.create("n", "p", "ams", image, None, "u").unwrap_err();
        assert_eq!(
            bad.message,
            format!("vultr: image must be a numeric os_id, got {image:?}")
        );
        assert_eq!(bad.cause, cause);
    }
    let keyed = vultr::create_body("n", "p", "l", "1", Some("k"), "u").unwrap();
    assert!(get(&keyed, "sshkey_id").is_some());
    assert_eq!(vultr.destroy("x").url, "https://api.vultr.com/v2/instances/x");
    assert_eq!(
        vultr.list().query,
        vec![("per_page".to_string(), "500".to_string())]
    );
}

// Hetzner

fn cax31(available: bool) -> ServerType {
    ServerType {
        architecture: "arm".into(),
        locations: vec![
            TypeLocation {
                name: "fsn1".into(),
                available: Some(available),
            },
            TypeLocation {
                name: "hel1".into(),
                available: Some(false),
            },
        ],
    }
}

fn order<'a>(image: &'a str, location: &'a str) -> Order<'a> {
    Order {
        name: "n",
        plan: "cax31",
        location,
        image,
        ssh_key: None,
        user_data: "u",
    }
}

#[test]
fn refuses_a_location_the_api_reports_as_out_of_stock() {
    assert!(!hetzner::offered_in(&cax31(false), "fsn1"));
    assert!(hetzner::offered_in(&cax31(true), "fsn1"));
    assert!(!hetzner::offered_in(&cax31(true), "hel1"));
}

#[test]
fn lets_the_api_judge_a_location_it_never_listed() {
    assert!(hetzner::offered_in(&cax31(false), "nbg1"));
    let unknown = ServerType {
        architecture: "x86".into(),
        locations: Vec::new(),
    };
    assert!(hetzner::offered_in(&unknown, "fsn1"));
}

#[test]
fn lets_the_api_judge_a_location_it_says_nothing_of() {
    let silent = ServerType {
        architecture: "x86".into(),
        locations: vec![TypeLocation {
            name: "fsn1".into(),
            available: None,
        }],
    };
    assert!(hetzner::offered_in(&silent, "fsn1"));
}

#[test]
fn hetzner_looks_an_image_up_for_the_architecture() {
    let hetzner = Hetzner { token: "tok".into() };
    let order = order("debian-12", "fsn1");
    match hetzner.order_typed(&order, vec![cax31(true)]).unwrap() {
        Next::Image { call, architecture } => {
            assert_eq!(architecture, "arm");
            assert_eq!(call.url, "https://api.hetzner.cloud/v1/images");
            assert_eq!(
                call.query,
                vec![
                    ("name".to_string(), "debian-12".to_string()),
                    ("architecture".to_string(), "arm".to_string())
                ]
            );
        }
        Next::Create(_) => panic!("a name is no id"),
    }
    let call = hetzner.order_imaged(&order, "arm", &[114690389, 5]).unwrap();
    assert!(matches!(get(body_of(&call), "image"), Some(Json::Signed(114690389))));
    assert_eq!(
        hetzner.order_imaged(&order, "arm", &[]).unwrap_err(),
        "hetzner: no arm image named debian-12"
    );
}

#[test]
fn hetzner_takes_a_snapshot_by_its_id() {
    let hetzner = Hetzner { token: "tok".into() };
    match hetzner.order_typed(&order("77", "fsn1"), vec![cax31(true)]).unwrap() {
        Next::Create(call) => {
            assert_eq!(call.url, "https://api.hetzner.cloud/v1/servers");
            assert!(matches!(get(body_of(&call), "image"), Some(Json::Signed(77))));
            assert!(flag(body_of(&call), "start_after_create"));
        }
        Next::Image { .. } => panic!("an id needs no looking up"),
    }
}

#[test]
fn hetzner_refuses_what_cannot_be_ordered() {
    let hetzner = Hetzner { token: "tok".into() };
    assert_eq!(
        hetzner.order_typed(&order("77", "fsn1"), vec![]).err().unwrap(),
        "hetzner: unknown server type cax31"
    );
    assert_eq!(
        hetzner
            .order_typed(&order("77", "hel1"), vec![cax31(true)])
            .err()
            .unwrap(),
        "hetzner: cax31 is out of stock in hel1"
    );
    assert_eq!(
        hetzner.list(3).query,
        vec![
            ("per_page".to_string(), "50".to_string()),
            ("page".to_string(), "3".to_string())
        ]
    );
    assert_eq!(hetzner.destroy("8").url, "https://api.hetzner.cloud/v1/servers/8");
    assert_eq!(hetzner.server_type("cax31").query[0].1, "cax31");
}

// Scaleway

fn scaleway_body() -> Json {
    scaleway::create_body(
        "ci-orc-check-a1b2c3",
        "BASIC2-A8C-16G",
        "debian_bookworm",
        "11111111-1111-1111-1111-111111111111",
        None,
    )
    .unwrap()
}

fn scaleway_account() -> Scaleway {
    Scaleway {
        token: "tok".into(),
        project_id: "proj".into(),
        zones: texts(&["fr-par-1"]),
    }
}

#[test]
fn splits_a_composite_id_into_zone_and_server() {
    let (zone, server) = scaleway::split_id("fr-par-1/abc-123").unwrap();
    assert_eq!(zone, "fr-par-1");
    assert_eq!(server, "abc-123");
}

#[test]
fn scaleway_splits_only_on_the_first_separator() {
    assert_eq!(
        scaleway::split_id("fr-par-1/a/b").unwrap(),
        ("fr-par-1", "a/b")
    );
}

#[test]
fn rejects_an_id_that_carries_no_zone() {
    let error = scaleway::split_id("abc-123").unwrap_err();
    assert!(error.contains("<zone>/<uuid>"), "{error}");
}

#[test]
fn scaleway_builds_the_composite_id_create_and_list_share() {
    let built = scaleway::machine_id("nl-ams-1", "abc-123");
    assert_eq!(built, "nl-ams-1/abc-123");
    assert_eq!(scaleway::split_id(&built).unwrap(), ("nl-ams-1", "abc-123"));
}

#[test]
fn sizes_the_root_volume_itself_instead_of_inheriting_the_image() {
    let body = scaleway_body();
    let root = get(get(&body, "volumes").unwrap(), "0").unwrap();
    assert_eq!(text(root, "volume_type"), "sbs_volume");
    assert_eq!(unsigned(root, "size"), 80_000_000_000u64);
    assert_eq!(text(root, "name"), "ci-orc-check-a1b2c3-root");
}

#[test]
fn sends_the_marketplace_label_and_lets_the_type_pick_the_arch() {
    let body = scaleway_body();
    assert_eq!(text(&body, "image"), "debian_bookworm");
    assert_eq!(text(&body, "commercial_type"), "BASIC2-A8C-16G");
    assert!(get(&body, "arch").is_none());
}

#[test]
fn asks_for_the_dynamic_ip_that_cloud_init_needs() {
    assert!(flag(&scaleway_body(), "dynamic_ip_required"));
}

#[test]
fn keeps_user_data_out_of_the_create_body() {
    let body = scaleway_body();
    assert!(get(&body, "user_data").is_none());
    assert!(get(&body, "cloud_init").is_none());
    let call = scaleway_account().set_user_data("fr-par-1", "s", "#cloud-config\n");
    assert_eq!(call.method, Method::Patch);
    assert_eq!(
        call.url,
        "https://api.scaleway.com/instance/v1/zones/fr-par-1/servers/s/user_data/cloud-init"
    );
    assert!(matches!(call.payload, Payload::Plain(data) if data == "#cloud-config\n"));
}

#[test]
fn refuses_an_ssh_key_the_api_has_no_field_for() {
    let error = scaleway::create_body("n", "t", "i", "p", Some("ci")).unwrap_err();
    assert!(error.contains("ssh_key"), "{error}");
    assert!(scaleway_account().create("n", "t", "z", "i", Some("ci")).is_err());
}

#[test]
fn deletes_only_the_volumes_terminate_leaves_behind() {
    let volume = |id: &str, kind: &str| Volume {
        id: id.into(),
        volume_type: kind.into(),
    };
    let server = Server {
        id: "abc-123".into(),
        state: None,
        volumes: vec![
            volume("root-1", "sbs_volume"),
            volume("local-1", "l_ssd"),
            volume("root-2", "sbs_volume"),
        ],
    };
    assert_eq!(scaleway::block_volumes_of(&server), vec!["root-1", "root-2"]);
}

#[test]
fn terminates_only_a_running_instance() {
    assert!(scaleway::terminable(Some("running")));
    assert!(!scaleway::terminable(Some("stopped")));
    assert!(!scaleway::terminable(Some("stopping")));
    assert!(!scaleway::terminable(Some("starting")));
    assert!(!scaleway::terminable(None));
    let account = scaleway_account();
    assert_eq!(
        text(body_of(&account.end("z", "s", Some("running"))), "action"),
        "terminate"
    );
    assert_eq!(account.end("z", "s", Some("stopped")).method, Method::Delete);
    assert_eq!(scaleway::ending(Some("running")), "scaleway: acting on instance");
    assert_eq!(scaleway::ending(None), "scaleway: deleting instance");
    let (user_data, power) = account.launch("z", "s", "u");
    assert_eq!(user_data.method, Method::Patch);
    assert_eq!(text(body_of(&power), "action"), "poweron");
}

#[test]
fn a_full_page_is_followed_by_another() {
    assert_eq!(scaleway::next_page(1, 100), Some(2));
    assert_eq!(scaleway::next_page(1, 99), None);
    assert_eq!(scaleway::next_page(u32::MAX, 100), None);
    let call = scaleway_account().list("fr-par-1", 2);
    assert_eq!(call.credential, ("X-Auth-Token".to_string(), "tok".to_string()));
    assert_eq!(call.query[2], ("page".to_string(), "2".to_string()));
}

#[test]
fn a_volume_in_use_is_asked_for_until_time_is_up() {
    let busy = reply(412, "in use");
    assert!(scaleway::volume_deleted("z", "v", &busy, 0).is_none());
    assert_eq!(
        scaleway::volume_deleted("z", "v", &busy, scaleway::DETACH_TIMEOUT),
        Some(Err(
            "scaleway: deleting root volume z/v: HTTP 412 Whatever: in use".to_string()
        ))
    );
    assert_eq!(
        scaleway::volume_deleted("z", "v", &reply(204, ""), 0),
        Some(Ok(()))
    );
    assert_eq!(
        scaleway::volume_deleted("z", "v", &reply(404, ""), 0),
        Some(Ok(()))
    );
    assert_eq!(
        scaleway_account().delete_volume("z", "v").url,
        "https://api.scaleway.com/block/v1/zones/z/volumes/v"
    );
}

// Gcore

fn gcore_body() -> Json {
    gcore::create_body(
        "runner-1",
        "a1-standard-8-16",
        "d52b7e87-50f2-4ad0-a5f8-8b9f80591384",
        "ssd_hiiops",
        None,
        "#cloud-config\n",
    )
}

fn gcore_account() -> gcore::Gcore {
    gcore::Gcore {
        token: "tok".into(),
        project_id: "11".into(),
        locations: texts(&["30"]),
        volume_types: Table::new(),
    }
}

fn gcore_task(state: &str, error: Option<&str>, instances: Option<&[&str]>) -> gcore::Task {
    gcore::Task {
        state: state.into(),
        error: error.map(str::to_owned),
        instances: instances.map(texts),
    }
}

#[test]
fn splits_a_composite_id_into_region_and_instance() {
    let (region, instance) = gcore::split_id("30/abc-123").unwrap();
    assert_eq!(region, "30");
    assert_eq!(instance, "abc-123");
}

#[test]
fn gcore_splits_only_on_the_first_separator() {
    assert_eq!(gcore::split_id("30/a/b").unwrap(), ("30", "a/b"));
}

#[test]
fn rejects_an_id_that_carries_no_region() {
    let error = gcore::split_id("abc-123").unwrap_err();
    assert!(error.contains("<region>/<uuid>"), "{error}");
}

#[test]
fn gcore_builds_the_composite_id_create_and_list_share() {
    let built = gcore::machine_id("30", "abc-123");
    assert_eq!(built, "30/abc-123");
    assert_eq!(gcore::split_id(&built).unwrap(), ("30", "abc-123"));
}

#[test]
fn boots_from_the_image_and_frees_the_volume_on_delete() {
    let body = gcore_body();
    let volume = at(get(&body, "volumes").unwrap(), 0);
    assert_eq!(text(volume, "source"), "image");
    assert_eq!(
        text(volume, "image_id"),
        "d52b7e87-50f2-4ad0-a5f8-8b9f80591384"
    );
    assert_eq!(unsigned(volume, "boot_index"), 0);
    assert_eq!(unsigned(volume, "size"), 80);
    assert_eq!(text(volume, "type_name"), "ssd_hiiops");
    assert!(flag(volume, "delete_on_termination"));
}

#[test]
fn asks_for_the_volume_type_the_region_was_polled_for() {
    let tokyo = gcore::create_body(
        "runner-1",
        "a1-standard-8-16",
        "d52b7e87-50f2-4ad0-a5f8-8b9f80591384",
        "ssd_lowlatency",
        None,
        "#cloud-config\n",
    );
    let volume = at(get(&tokyo, "volumes").unwrap(), 0);
    assert_eq!(text(volume, "type_name"), "ssd_lowlatency");
    assert_eq!(unsigned(volume, "size"), 80);
    assert!(flag(volume, "delete_on_termination"));
}

#[test]
fn takes_the_fastest_volume_type_a_region_offers() {
    assert_eq!(
        gcore::preferred_volume_type(&texts(&["standard", "ssd_hiiops"])),
        Some("ssd_hiiops")
    );
    assert_eq!(
        gcore::preferred_volume_type(&texts(&["ssd_lowlatency", "standard"])),
        Some("ssd_lowlatency")
    );
    assert_eq!(
        gcore::preferred_volume_type(&texts(&["standard"])),
        Some("standard")
    );
}

#[test]
fn refuses_a_region_that_offers_no_type_we_want() {
    assert_eq!(
        gcore::preferred_volume_type(&texts(&["cold", "ultra"])),
        None
    );
    assert_eq!(gcore::preferred_volume_type(&[]), None);
}

#[test]
fn remembers_the_volume_type_of_a_region() {
    let mut gcore = gcore_account();
    assert_eq!(gcore.cached_volume_type("30"), None);
    assert_eq!(
        gcore.choose_volume_type("30", &texts(&["cold", "ultra"])).unwrap_err(),
        "gcore: region 30 offers none of ssd_lowlatency, ssd_hiiops, standard, only cold, ultra"
    );
    assert_eq!(gcore.cached_volume_type("30"), None);
    assert_eq!(
        gcore.choose_volume_type("30", &texts(&["standard"])),
        Ok("standard")
    );
    assert_eq!(gcore.cached_volume_type("30"), Some("standard"));
    assert_eq!(gcore.cached_volume_type("76"), None);
}

#[test]
fn asks_for_a_single_internet_facing_interface() {
    let body = gcore_body();
    let interfaces = get(&body, "interfaces").unwrap();
    assert!(matches!(interfaces, Json::List(items) if items.len() == 1));
    assert_eq!(text(at(interfaces, 0), "type"), "external");
    assert_eq!(text(at(interfaces, 0), "ip_family"), "ipv4");
}

#[test]
fn sends_user_data_base64_encoded_and_never_a_password() {
    let body = gcore_body();
    assert_eq!(text(&body, "user_data"), "I2Nsb3VkLWNvbmZpZwo=");
    assert!(get(&body, "password").is_none());
    assert!(get(&body, "username").is_none());
}

#[test]
fn names_a_keypair_only_when_one_is_configured() {
    assert!(get(&gcore_body(), "ssh_key_name").is_none());
    let keyed = gcore::create_body(
        "runner-1",
        "flavor",
        "image",
        "standard",
        Some("ci"),
        "user-data",
    );
    assert_eq!(text(&keyed, "ssh_key_name"), "ci");
}

#[test]
fn names_the_instance_with_the_v2_field() {
    let body = gcore_body();
    assert_eq!(text(&body, "name"), "runner-1");
    assert!(get(&body, "names").is_none());
}

#[test]
fn reads_the_instance_id_out_of_a_finished_task() {
    let task = gcore_task("FINISHED", None, Some(&["abc-123"]));
    assert_eq!(gcore::instance_of(&task, "task-1").unwrap(), "abc-123");
}

#[test]
fn fails_when_a_finished_task_created_no_instance() {
    let task = gcore_task("FINISHED", None, None);
    let error = gcore::instance_of(&task, "task-1").unwrap_err();
    assert!(error.contains("task-1"), "{error}");
    let empty = gcore_task("FINISHED", None, Some(&[]));
    assert!(gcore::instance_of(&empty, "task-1").is_err());
}

#[test]
fn waits_for_a_task_as_long_as_there_is_time() {
    let running = gcore_task("RUNNING", None, None);
    assert!(gcore::task_polled(&running, "t", 599_999_999_999).is_none());
    assert_eq!(
        gcore::task_polled(&running, "t", 600_000_000_000),
        Some(Err("gcore: create task t unfinished after 600s".to_string()))
    );
    assert_eq!(
        gcore::task_polled(&gcore_task("ERROR", None, None), "t", 0),
        Some(Err("gcore: create task t failed: no detail".to_string()))
    );
    assert_eq!(
        gcore::task_polled(&gcore_task("ERROR", Some("quota"), None), "t", 0),
        Some(Err("gcore: create task t failed: quota".to_string()))
    );
    assert_eq!(
        gcore::task_polled(&gcore_task("FINISHED", None, Some(&["i"])), "t", 0),
        Some(Ok("i".to_string()))
    );
    assert_eq!(
        gcore::first_task(vec![]),
        Err("gcore: creating instance returned no task".to_string())
    );
    assert_eq!(gcore::first_task(texts(&["a", "b"])), Ok("a".to_string()));
}

#[test]
fn gcore_deletes_the_volumes_by_name() {
    let gcore = gcore_account();
    let bare = gcore.destroy("30", "i", &[]);
    assert_eq!(bare.url, "https://api.gcore.com/cloud/v1/instances/11/30/i");
    assert_eq!(bare.query.len(), 1);
    let full = gcore.destroy("30", "i", &texts(&["v1", "v2"]));
    assert_eq!(full.query[1], ("volumes".to_string(), "v1,v2".to_string()));
    let call = gcore.create("n", "p", "30", "i", "standard", None, "u");
    assert_eq!(call.url, "https://api.gcore.com/cloud/v2/instances/11/30");
    assert_eq!(call.credential.1, "APIKey tok");
    assert_eq!(gcore.task("t").url, "https://api.gcore.com/cloud/v1/tasks/t");
    assert_eq!(gcore.list("30").query[0].1, "1000");
    assert_eq!(
        gcore.volume_type("30").query[0],
        ("show_volume_types".to_string(), "true".to_string())
    );
}
