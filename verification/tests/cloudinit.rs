use forgejo_actions_orchestrator::cloudinit::{render, user_data, BOOT, ETC, RUNNER_PATH};
use forgejo_actions_orchestrator::config::{Class, Daemon, Provider};
use forgejo_actions_orchestrator::forgejo::Registration;
use serde_json::Value;

fn daemon() -> Daemon {
    Daemon {
        machine_prefix: "ci-orc".to_owned(),
        poll_interval_secs: 15,
        reconcile_grace_secs: 300,
        runner_version: "12.13.2".into(),
        runner_sha256_amd64: "deadbeef".into(),
        runner_sha256_arm64: "cafebabe".into(),
    }
}

fn class() -> Class {
    Class {
        labels: vec!["check".into()],
        provider: Provider::Hetzner,
        plans: vec!["cx43".into()],
        locations: vec!["fsn1".into()],
        image: "snapshot-1".into(),
        ssh_key: None,
        lifetime_minutes: 90,
        job_timeout_minutes: 70,
        allow_fork_pull_request: true,
        allowed_events: vec!["pull_request".into()],
    }
}

fn registration() -> Registration {
    Registration {
        id: 7,
        uuid: "abcd-1234".into(),
        token: "s3cret".into(),
    }
}

fn rendered_for(class: &Class, registration: &Registration, handle: &str) -> Value {
    let text = render(
        &daemon(),
        class,
        "https://git.example.org",
        registration,
        handle,
    );
    let body = text.strip_prefix("#cloud-config\n").expect("header");
    serde_json::from_str(body).expect("valid cloud-config")
}

fn rendered(registration: &Registration, handle: &str) -> Value {
    rendered_for(&class(), registration, handle)
}

fn file<'a>(config: &'a Value, name: &str) -> &'a Value {
    config["write_files"]
        .as_array()
        .unwrap()
        .iter()
        .find(|f| f["path"] == format!("{ETC}/{name}"))
        .unwrap_or_else(|| panic!("{name} was not written"))
}

#[test]
fn declares_itself_as_cloud_config() {
    let text = render(
        &daemon(),
        &class(),
        "https://git.example.org",
        &registration(),
        "H1",
    );
    assert!(text.starts_with("#cloud-config\n"), "{text}");
    assert!(text.ends_with("}\n"), "{text}");
}

#[test]
fn ships_the_script_verbatim() {
    let config = rendered(&registration(), "H1");
    assert_eq!(file(&config, "boot.sh")["content"], BOOT);
    assert_eq!(file(&config, "boot.sh")["permissions"], "0700");
}

#[test]
fn writes_every_label_in_the_set_one_per_line() {
    let mut multi = class();
    multi.labels = vec!["build".into(), "hetzner".into()];
    let config = rendered_for(&multi, &registration(), "H1");
    assert_eq!(
        file(&config, "runner-labels")["content"],
        "build:host\nhetzner:host\n",
        "a machine registered with a subset of the set never matches the job"
    );
}

#[test]
fn the_script_installs_what_the_runner_needs_before_it_starts() {
    for tool in ["curl", "git"] {
        assert!(
            BOOT.contains(&format!("command -v {tool}")),
            "the runner clones actions before any step runs, so {tool} cannot come from a workflow step"
        );
    }
    let install = BOOT.find("apt-get install").expect("installs nothing");
    let download = BOOT.find("-o \"$runner\"").expect("no runner download");
    assert!(
        install < download,
        "prerequisites must precede the download"
    );
}

#[test]
fn the_script_interpolates_nothing() {
    assert!(
        !BOOT.contains("{}"),
        "the script must carry no placeholders"
    );
    for value in ["s3cret", "abcd-1234", "git.example.org", "12.13.2"] {
        assert!(!BOOT.contains(value), "{value} is baked into the script");
    }
}

#[test]
fn the_runner_is_given_a_timeout_it_cannot_be_talked_out_of() {
    let config = rendered(&registration(), "H1");
    assert_eq!(
        file(&config, "runner-config.yml")["content"],
        format!("runner:\n  timeout: {}m\n", class().job_timeout()),
        "a hung job must lose its runner before the machine is destroyed"
    );
    assert_eq!(
        file(&config, "runner-config.yml")["content"],
        "runner:\n  timeout: 70m\n"
    );
    assert!(
        BOOT.contains("--config \"$etc/runner-config.yml\""),
        "the config is written but never passed to the runner"
    );
}

#[test]
fn the_script_reads_from_the_directory_the_files_are_written_to() {
    assert!(
        BOOT.contains(&format!("etc={ETC}\n")),
        "cloud-init writes to {ETC}, so the script must read from it"
    );
}

#[test]
fn every_value_the_script_reads_is_written() {
    let config = rendered(&registration(), "H1");
    for name in [
        "forgejo-url",
        "runner-uuid",
        "runner-labels",
        "job-handle",
        "runner-token",
        "runner-url-amd64",
        "runner-url-arm64",
        "runner-amd64.sha256",
        "runner-arm64.sha256",
        "runner-config.yml",
    ] {
        let read = name
            .replace("-amd64", "-$arch")
            .replace("-arm64", "-$arch")
            .replace("amd64.sha256", "$arch.sha256")
            .replace("arm64.sha256", "$arch.sha256");
        assert!(
            BOOT.contains(&read),
            "{name} is written but never read as {read}"
        );
        file(&config, name);
    }
}

#[test]
fn keeps_the_token_private_to_root() {
    let config = rendered(&registration(), "H1");
    let token = file(&config, "runner-token");
    assert_eq!(token["permissions"], "0600");
    assert_eq!(token["owner"], "root:root");
    assert_eq!(token["content"], "s3cret");
}

#[test]
fn pins_the_runner_to_its_own_job() {
    let config = rendered(&registration(), "H1");
    assert_eq!(file(&config, "job-handle")["content"], "H1");
    assert!(BOOT.contains("--handle"), "{BOOT}");
    assert!(BOOT.contains("--wait"), "{BOOT}");
}

#[test]
fn verifies_the_runner_download() {
    let config = rendered(&registration(), "H1");
    assert_eq!(
        file(&config, "runner-amd64.sha256")["content"],
        format!("deadbeef  {RUNNER_PATH}\n")
    );
    assert_eq!(
        file(&config, "runner-arm64.sha256")["content"],
        format!("cafebabe  {RUNNER_PATH}\n")
    );
    assert!(
        file(&config, "runner-url-arm64")["content"]
            .as_str()
            .is_some_and(|url| url.ends_with("-linux-arm64")),
        "the arm64 box must not be sent the amd64 build"
    );
    assert!(BOOT.contains("sha256sum -c"), "{BOOT}");
}

#[test]
fn keeps_the_lifetime_backstop() {
    let config = rendered(&registration(), "H1");
    assert_eq!(config["power_state"]["mode"], "poweroff");
    assert_eq!(config["power_state"]["delay"], 90);
    assert_eq!(config["power_state"]["condition"], true);
}

#[test]
fn a_hostile_value_stays_data() {
    let mut registration = registration();
    registration.token = "tok'; rm -rf / #".into();
    let config = rendered(&registration, "H1");
    assert_eq!(
        file(&config, "runner-token")["content"],
        "tok'; rm -rf / #"
    );
    assert!(
        !config["runcmd"].to_string().contains("rm -rf"),
        "a value reached a command position"
    );
}

#[test]
fn runs_only_the_script() {
    let config = rendered(&registration(), "H1");
    assert_eq!(
        config["runcmd"].to_string(),
        format!("[[\"bash\",\"{ETC}/boot.sh\"]]")
    );
}

#[test]
fn fits_inside_the_smallest_provider_limit() {
    let text = render(
        &daemon(),
        &class(),
        "https://git.example.org",
        &registration(),
        "H1",
    );
    assert!(text.len() < 32 * 1024, "{} bytes", text.len());
}

#[test]
fn writes_the_fields_in_order() {
    let text = render(
        &daemon(),
        &class(),
        "https://git.example.org",
        &registration(),
        "H1",
    );
    let start = "#cloud-config\n{\n  \"write_files\": [\n    {\n      \"path\": \"/etc/forgejo-actions-orchestrator/runner-token\",\n      \"content\": \"s3cret\",\n      \"permissions\": \"0600\",\n      \"owner\": \"root:root\"\n    },";
    assert!(text.starts_with(start), "{text}");
    let end = "  \"power_state\": {\n    \"mode\": \"poweroff\",\n    \"delay\": 90,\n    \"condition\": true\n  }\n}\n";
    assert!(text.ends_with(end), "{text}");
}

#[test]
fn user_data_starts_with_its_header() {
    assert_eq!(user_data("{}"), "#cloud-config\n{}\n");
}

#[test]
fn the_runner_comes_from_its_release() {
    let config = rendered(&registration(), "H1");
    assert_eq!(
        file(&config, "runner-url-amd64")["content"],
        "https://code.forgejo.org/forgejo/runner/releases/download/v12.13.2/forgejo-runner-12.13.2-linux-amd64"
    );
}
