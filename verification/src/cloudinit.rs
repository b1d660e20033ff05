//! What a new machine is told to do with itself.

use vstd::prelude::*;

use serde_json::Value;

use crate::config::{Class, ClassView, Daemon};
use crate::forgejo::Registration;
use crate::text;

verus! {

/// The script a machine runs: it fetches the runner, holds it against its
/// checksum and has it serve one job. It reads everything it needs from files.
pub const BOOT: &'static str = "#!/usr/bin/env bash\nset -euo pipefail\n\netc=/etc/forgejo-actions-orchestrator\nrunner=/usr/local/bin/forgejo-runner\n\ncase \"$(uname -m)\" in\nx86_64) arch=amd64 ;;\naarch64) arch=arm64 ;;\n*)\n\techo \"unsupported architecture: $(uname -m)\" >&2\n\texit 1\n\t;;\nesac\n\nif ! command -v curl >/dev/null || ! command -v git >/dev/null; then\n\texport DEBIAN_FRONTEND=noninteractive\n\tapt-get update\n\tapt-get install -y --no-install-recommends ca-certificates curl git\nfi\n\ncurl -fsSL --retry 5 \"$(cat \"$etc/runner-url-$arch\")\" -o \"$runner\"\nsha256sum -c \"$etc/runner-$arch.sha256\"\nchmod 0755 \"$runner\"\n\nlabels=()\nwhile IFS= read -r label; do\n\tlabels+=(--label \"$label\")\ndone <\"$etc/runner-labels\"\n\nexec systemd-run --collect --unit=forgejo-runner --setenv=HOME=/root \\\n\t\"$runner\" --config \"$etc/runner-config.yml\" one-job \\\n\t--url \"$(cat \"$etc/forgejo-url\")\" \\\n\t--uuid \"$(cat \"$etc/runner-uuid\")\" \\\n\t--token-url \"file://$etc/runner-token\" \\\n\t--handle \"$(cat \"$etc/job-handle\")\" \\\n\t--wait \"${labels[@]}\"\n";

/// Where a machine keeps its files.
pub const ETC: &'static str = "/etc/forgejo-actions-orchestrator";

/// Where a machine keeps the runner.
pub const RUNNER_PATH: &'static str = "/usr/local/bin/forgejo-runner";

#[derive(Debug)]
pub struct CloudConfig {
    pub write_files: Vec<WriteFile>,
    pub runcmd: Vec<Vec<String>>,
    pub power_state: PowerState,
}

#[derive(Debug)]
pub struct WriteFile {
    pub path: String,
    pub content: String,
    pub permissions: &'static str,
    pub owner: &'static str,
}

#[derive(Debug)]
pub struct PowerState {
    pub mode: &'static str,
    pub delay: u64,
    pub condition: bool,
}

pub struct FileView {
    pub path: Seq<char>,
    pub content: Seq<char>,
    pub permissions: Seq<char>,
    pub owner: Seq<char>,
}

#[verifier::ext_equal]
pub struct CloudConfigView {
    pub write_files: Seq<FileView>,
    pub runcmd: Seq<Seq<Seq<char>>>,
    pub mode: Seq<char>,
    pub delay: u64,
    pub condition: bool,
}

impl View for WriteFile {
    type V = FileView;

    open spec fn view(&self) -> FileView {
        FileView {
            path: self.path@,
            content: self.content@,
            permissions: self.permissions@,
            owner: self.owner@,
        }
    }
}

impl View for CloudConfig {
    type V = CloudConfigView;

    open spec fn view(&self) -> CloudConfigView {
        CloudConfigView {
            write_files: self.write_files@.map_values(|file: WriteFile| file@),
            runcmd: self.runcmd@.map_values(|words: Vec<String>| text::texts(words@)),
            mode: self.power_state.mode@,
            delay: self.power_state.delay,
            condition: self.power_state.condition,
        }
    }
}

/// A file of root's, in the directory of the files.
pub open spec fn file_of(name: Seq<char>, content: Seq<char>, permissions: Seq<char>) -> FileView {
    FileView { path: ETC@ + "/"@ + name, content, permissions, owner: "root:root"@ }
}

pub open spec fn url_of(version: Seq<char>, arch: Seq<char>) -> Seq<char> {
    "https://code.forgejo.org/forgejo/runner/releases/download/v"@ + version
        + "/forgejo-runner-"@ + version + "-linux-"@ + arch
}

/// The labels as the runner takes them, each on a line.
pub open spec fn label_lines(labels: Seq<Seq<char>>) -> Seq<char>
    decreases labels.len(),
{
    if labels.len() == 0 {
        Seq::empty()
    } else {
        label_lines(labels.drop_last()) + labels.last() + ":host\n"@
    }
}

/// A line of a checksum file.
pub open spec fn checksum_line(sum: Seq<char>) -> Seq<char> {
    sum + "  "@ + RUNNER_PATH@ + "\n"@
}

/// The one command: the script.
pub open spec fn script_command() -> Seq<Seq<char>> {
    Seq::empty().push("bash"@).push(ETC@ + "/boot.sh"@)
}

pub open spec fn files_of(
    daemon: Daemon,
    class: ClassView,
    forgejo_url: Seq<char>,
    registration: Registration,
    handle: Seq<char>,
) -> Seq<FileView> {
    let version = daemon.runner_version@;
    Seq::empty().push(file_of("runner-token"@, registration.token@, "0600"@)).push(
        file_of("boot.sh"@, BOOT@, "0700"@),
    ).push(file_of("forgejo-url"@, forgejo_url, "0644"@)).push(
        file_of("runner-uuid"@, registration.uuid@, "0644"@),
    ).push(file_of("runner-labels"@, label_lines(class.labels), "0644"@)).push(
        file_of("job-handle"@, handle, "0644"@),
    ).push(
        file_of(
            "runner-config.yml"@,
            "runner:\n  timeout: "@ + text::decimal_of(class.job_timeout_minutes as nat) + "m\n"@,
            "0644"@,
        ),
    ).push(file_of("runner-url-amd64"@, url_of(version, "amd64"@), "0644"@)).push(
        file_of("runner-url-arm64"@, url_of(version, "arm64"@), "0644"@),
    ).push(
        file_of("runner-amd64.sha256"@, checksum_line(daemon.runner_sha256_amd64@), "0644"@),
    ).push(
        file_of("runner-arm64.sha256"@, checksum_line(daemon.runner_sha256_arm64@), "0644"@),
    )
}

/// The configuration of a machine that is to serve one job of the class.
pub open spec fn config_of(
    daemon: Daemon,
    class: ClassView,
    forgejo_url: Seq<char>,
    registration: Registration,
    handle: Seq<char>,
) -> CloudConfigView {
    CloudConfigView {
        write_files: files_of(daemon, class, forgejo_url, registration, handle),
        runcmd: Seq::empty().push(script_command()),
        mode: "poweroff"@,
        delay: class.lifetime_minutes,
        condition: true,
    }
}

impl WriteFile {
    fn owned_by_root(name: &str, content: String, permissions: &'static str) -> (res: Self)
        ensures
            res@ == file_of(name@, content@, permissions@),
    {
        WriteFile {
            path: ETC.to_owned().concat("/").concat(name),
            content,
            permissions,
            owner: "root:root",
        }
    }

    pub fn secret(name: &str, content: String) -> (res: Self)
        ensures
            res@ == file_of(name@, content@, "0600"@),
    {
        WriteFile::owned_by_root(name, content, "0600")
    }

    pub fn readable(name: &str, content: String) -> (res: Self)
        ensures
            res@ == file_of(name@, content@, "0644"@),
    {
        WriteFile::owned_by_root(name, content, "0644")
    }

    pub fn script(name: &str, content: String) -> (res: Self)
        ensures
            res@ == file_of(name@, content@, "0700"@),
    {
        WriteFile::owned_by_root(name, content, "0700")
    }
}

pub fn runner_url(version: &str, arch: &str) -> (res: String)
    ensures
        res@ == url_of(version@, arch@),
{
    "https://code.forgejo.org/forgejo/runner/releases/download/v".to_owned().concat(
        version,
    ).concat("/forgejo-runner-").concat(version).concat("-linux-").concat(arch)
}

fn lines_of(labels: &[String]) -> (res: String)
    ensures
        res@ == label_lines(text::texts(labels@)),
{
    let ghost all = text::texts(labels@);
    let mut lines = String::new();
    let mut i: usize = 0;
    while i < labels.len()
        invariant
            i <= labels@.len(),
            all == text::texts(labels@),
            lines@ == label_lines(all.take(i as int)),
        decreases labels@.len() - i,
    {
        proof {
            assert(all.take(i + 1).drop_last() =~= all.take(i as int));
            assert(all.take(i + 1).last() == labels@[i as int]@);
        }
        lines.append(labels[i].as_str());
        lines.append(":host\n");
        i += 1;
    }
    proof {
        assert(all.take(i as int) =~= all);
    }
    lines
}

fn checksum(sum: &str) -> (res: String)
    ensures
        res@ == checksum_line(sum@),
{
    sum.to_owned().concat("  ").concat(RUNNER_PATH).concat("\n")
}

/// The configuration of a machine that is to serve one job of the class.
pub fn cloud_config(
    daemon: &Daemon,
    class: &Class,
    forgejo_url: &str,
    registration: &Registration,
    handle: &str,
) -> (res: CloudConfig)
    ensures
        res@ == config_of(*daemon, class@, forgejo_url@, *registration, handle@),
{
    let version = daemon.runner_version.as_str();
    let timeout = text::decimal(class.job_timeout());
    let settings = "runner:\n  timeout: ".to_owned().concat(timeout.as_str()).concat("m\n");
    let mut files: Vec<WriteFile> = Vec::new();
    files.push(WriteFile::secret("runner-token", registration.token.clone()));
    files.push(WriteFile::script("boot.sh", BOOT.to_owned()));
    files.push(WriteFile::readable("forgejo-url", forgejo_url.to_owned()));
    files.push(WriteFile::readable("runner-uuid", registration.uuid.clone()));
    files.push(WriteFile::readable("runner-labels", lines_of(class.labels.as_slice())));
    files.push(WriteFile::readable("job-handle", handle.to_owned()));
    files.push(WriteFile::readable("runner-config.yml", settings));
    files.push(WriteFile::readable("runner-url-amd64", runner_url(version, "amd64")));
    files.push(WriteFile::readable("runner-url-arm64", runner_url(version, "arm64")));
    files.push(
        WriteFile::readable("runner-amd64.sha256", checksum(daemon.runner_sha256_amd64.as_str())),
    );
    files.push(
        WriteFile::readable("runner-arm64.sha256", checksum(daemon.runner_sha256_arm64.as_str())),
    );
    let mut command: Vec<String> = Vec::new();
    command.push("bash".to_owned());
    command.push(ETC.to_owned().concat("/boot.sh"));
    let ghost words = command@;
    let mut runcmd: Vec<Vec<String>> = Vec::new();
    runcmd.push(command);
    let res = CloudConfig {
        write_files: files,
        runcmd,
        power_state: PowerState {
            mode: "poweroff",
            delay: class.lifetime_minutes,
            condition: true,
        },
    };
    proof {
        let due = config_of(*daemon, class@, forgejo_url@, *registration, handle@);
        assert(text::texts(words) =~= script_command());
        assert(res@.runcmd =~= due.runcmd);
        assert(res@.write_files =~= due.write_files);
    }
    res
}

/// A document of named sections.
#[derive(Debug)]
pub struct Document {
    pub sections: Vec<(String, Section)>,
}

#[derive(Debug)]
pub enum Section {
    /// A list of objects whose fields are texts.
    Records(Vec<Vec<(String, String)>>),
    /// A list of lists of words.
    Commands(Vec<Vec<String>>),
    /// An object.
    Settings(Vec<(String, Setting)>),
}

#[derive(Debug)]
pub enum Setting {
    Text(String),
    Number(u64),
    Flag(bool),
}

pub enum SectionView {
    Records(Seq<Seq<(Seq<char>, Seq<char>)>>),
    Commands(Seq<Seq<Seq<char>>>),
    Settings(Seq<(Seq<char>, SettingView)>),
}

pub enum SettingView {
    Text(Seq<char>),
    Number(u64),
    Flag(bool),
}

impl View for Setting {
    type V = SettingView;

    open spec fn view(&self) -> SettingView {
        match self {
            Setting::Text(value) => SettingView::Text(value@),
            Setting::Number(value) => SettingView::Number(*value),
            Setting::Flag(value) => SettingView::Flag(*value),
        }
    }
}

pub open spec fn record_view(record: Seq<(String, String)>) -> Seq<(Seq<char>, Seq<char>)> {
    record.map_values(|field: (String, String)| (field.0@, field.1@))
}

impl View for Section {
    type V = SectionView;

    open spec fn view(&self) -> SectionView {
        match self {
            Section::Records(records) => SectionView::Records(
                records@.map_values(|record: Vec<(String, String)>| record_view(record@)),
            ),
            Section::Commands(commands) => SectionView::Commands(
                commands@.map_values(|words: Vec<String>| text::texts(words@)),
            ),
            Section::Settings(settings) => SectionView::Settings(
                settings@.map_values(|setting: (String, Setting)| (setting.0@, setting.1@)),
            ),
        }
    }
}

impl View for Document {
    type V = Seq<(Seq<char>, SectionView)>;

    open spec fn view(&self) -> Seq<(Seq<char>, SectionView)> {
        self.sections@.map_values(|section: (String, Section)| (section.0@, section.1@))
    }
}

/// The fields of a file, as a document names them.
pub open spec fn record_of(file: FileView) -> Seq<(Seq<char>, Seq<char>)> {
    Seq::empty().push(("path"@, file.path)).push(("content"@, file.content)).push(
        ("permissions"@, file.permissions),
    ).push(("owner"@, file.owner))
}

/// A configuration as a document.
pub open spec fn document_of(config: CloudConfigView) -> Seq<(Seq<char>, SectionView)> {
    let power = Seq::empty().push(("mode"@, SettingView::Text(config.mode))).push(
        ("delay"@, SettingView::Number(config.delay)),
    ).push(("condition"@, SettingView::Flag(config.condition)));
    Seq::empty().push(
        (
            "write_files"@,
            SectionView::Records(
                config.write_files.map_values(|file: FileView| record_of(file)),
            ),
        ),
    ).push(("runcmd"@, SectionView::Commands(config.runcmd))).push(
        ("power_state"@, SectionView::Settings(power)),
    )
}

/// The fields of a file.
fn record(file: &WriteFile) -> (res: Vec<(String, String)>)
    ensures
        record_view(res@) == record_of(file@),
{
    let mut fields: Vec<(String, String)> = Vec::new();
    fields.push(("path".to_owned(), file.path.clone()));
    fields.push(("content".to_owned(), file.content.clone()));
    fields.push(("permissions".to_owned(), file.permissions.to_owned()));
    fields.push(("owner".to_owned(), file.owner.to_owned()));
    proof {
        assert(record_view(fields@) =~= record_of(file@));
    }
    fields
}

/// A configuration as a document.
pub fn document(config: CloudConfig) -> (res: Document)
    ensures
        res@ == document_of(config@),
{
    let ghost due = document_of(config@);
    let ghost files = config@.write_files;
    let mut records: Vec<Vec<(String, String)>> = Vec::new();
    let mut i: usize = 0;
    while i < config.write_files.len()
        invariant
            i <= config.write_files@.len() == files.len(),
            files == config@.write_files,
            records@.len() == i,
            forall|j: int|
                0 <= j < i ==> record_view((#[trigger] records@[j])@) == record_of(files[j]),
        decreases config.write_files@.len() - i,
    {
        records.push(record(&config.write_files[i]));
        i += 1;
    }
    let mut settings: Vec<(String, Setting)> = Vec::new();
    settings.push(("mode".to_owned(), Setting::Text(config.power_state.mode.to_owned())));
    settings.push(("delay".to_owned(), Setting::Number(config.power_state.delay)));
    settings.push(("condition".to_owned(), Setting::Flag(config.power_state.condition)));
    let mut sections: Vec<(String, Section)> = Vec::new();
    sections.push(("write_files".to_owned(), Section::Records(records)));
    sections.push(("runcmd".to_owned(), Section::Commands(config.runcmd)));
    sections.push(("power_state".to_owned(), Section::Settings(settings)));
    let res = Document { sections };
    proof {
        assert(res@[0].1->Records_0 =~= due[0].1->Records_0);
        assert(res@[2].1->Settings_0 =~= due[2].1->Settings_0);
        assert(res@ =~= due);
    }
    res
}

/// What `serde_json` writes for a document, indented.
pub uninterp spec fn pretty_json(document: Seq<(Seq<char>, SectionView)>) -> Seq<char>;

/// `serde_json::to_string_pretty` on the document as a `serde_json::Value`: an
/// object of the sections, in their order, with an array of objects, an array of
/// arrays or an object for each. Nothing is claimed but that the document alone
/// decides the text.
#[verifier::external_body]
fn pretty(document: Document) -> (res: String)
    ensures
        res@ == pretty_json(document@),
{
    let setting = |(key, setting): (String, Setting)| match setting {
        Setting::Text(value) => (key, Value::from(value)),
        Setting::Number(value) => (key, value.into()),
        Setting::Flag(value) => (key, value.into()),
    };
    let section = |(key, section): (String, Section)| match section {
        Section::Records(list) => (key, list.into_iter().map(Value::from_iter).collect()),
        Section::Commands(list) => (key, Value::from(list)),
        Section::Settings(list) => (key, list.into_iter().map(setting).collect()),
    };
    let whole: Value = document.sections.into_iter().map(section).collect();
    serde_json::to_string_pretty(&whole).expect("plain data")
}

/// The user data a machine is created with, from the text of its configuration.
pub open spec fn user_data_of(document: Seq<char>) -> Seq<char> {
    "#cloud-config\n"@ + document + "\n"@
}

/// The user data with this document.
pub fn user_data(document: &str) -> (res: String)
    ensures
        res@ == user_data_of(document@),
{
    "#cloud-config\n".to_owned().concat(document).concat("\n")
}

/// The user data of a machine that is to serve one job of the class.
pub fn render(
    daemon: &Daemon,
    class: &Class,
    forgejo_url: &str,
    registration: &Registration,
    handle: &str,
) -> (res: String)
    ensures
        res@ == user_data_of(
            pretty_json(
                document_of(config_of(*daemon, class@, forgejo_url@, *registration, handle@)),
            ),
        ),
{
    let config = cloud_config(daemon, class, forgejo_url, registration, handle);
    let text = pretty(document(config));
    user_data(text.as_str())
}

/// Whatever a machine is given, it runs the script and nothing else, and no
/// value that came from outside stands in the script.
pub proof fn law_only_the_script_runs(
    daemon: Daemon,
    class: ClassView,
    forgejo_url: Seq<char>,
    registration: Registration,
    handle: Seq<char>,
)
    ensures
        ({
            let config = config_of(daemon, class, forgejo_url, registration, handle);
            &&& config.runcmd == seq![script_command()]
            &&& config.write_files.contains(file_of("boot.sh"@, BOOT@, "0700"@))
        }),
{
    let config = config_of(daemon, class, forgejo_url, registration, handle);
    assert(config.runcmd =~= seq![script_command()]);
    assert(config.write_files[1] == file_of("boot.sh"@, BOOT@, "0700"@));
}

/// Every file is root's, and the token is readable to root alone.
pub proof fn law_files_are_of_root(
    daemon: Daemon,
    class: ClassView,
    forgejo_url: Seq<char>,
    registration: Registration,
    handle: Seq<char>,
)
    ensures
        ({
            let files = files_of(daemon, class, forgejo_url, registration, handle);
            &&& forall|i: int| 0 <= i < files.len() ==> (#[trigger] files[i]).owner == "root:root"@
            &&& files[0] == file_of("runner-token"@, registration.token@, "0600"@)
        }),
{
}

/// A hung job loses its runner before its machine is powered off, where the
/// class has a timeout shorter than its lifetime.
pub proof fn law_timeout_precedes_poweroff(
    daemon: Daemon,
    class: ClassView,
    forgejo_url: Seq<char>,
    registration: Registration,
    handle: Seq<char>,
)
    requires
        class.job_timeout_minutes < class.lifetime_minutes,
    ensures
        ({
            let config = config_of(daemon, class, forgejo_url, registration, handle);
            &&& class.job_timeout_minutes < config.delay
            &&& config.mode == "poweroff"@
            &&& config.write_files[6].content == "runner:\n  timeout: "@ + text::decimal_of(
                class.job_timeout_minutes as nat,
            ) + "m\n"@
        }),
{
}

/// The machine gets one file under this name, of root's, with this content and these
/// permissions.
pub open spec fn has_file(
    config: CloudConfig,
    name: Seq<char>,
    content: Seq<char>,
    permissions: Seq<char>,
) -> bool {
    let path = "/etc/forgejo-actions-orchestrator"@ + "/"@ + name;
    &&& exists|i: int|
        0 <= i < config.write_files@.len() && (#[trigger] config.write_files@[i]).path@ == path
            && config.write_files@[i].content@ == content
            && config.write_files@[i].permissions@ == permissions
            && config.write_files@[i].owner@ == "root:root"@
    &&& forall|i: int, j: int|
        0 <= i < config.write_files@.len() && 0 <= j < config.write_files@.len() && (
        #[trigger] config.write_files@[i]).path@ == path && (
        #[trigger] config.write_files@[j]).path@ == path ==> i == j
}

proof fn lemma_names_apart()
    ensures
        ({
            let names = file_names();
            forall|i: int, j: int|
                0 <= i < j < names.len() ==> #[trigger] names[i] != #[trigger] names[j]
        }),
{
    reveal_strlit("runner-token");
    reveal_strlit("boot.sh");
    reveal_strlit("forgejo-url");
    reveal_strlit("runner-uuid");
    reveal_strlit("runner-labels");
    reveal_strlit("job-handle");
    reveal_strlit("runner-config.yml");
    reveal_strlit("runner-url-amd64");
    reveal_strlit("runner-url-arm64");
    reveal_strlit("runner-amd64.sha256");
    reveal_strlit("runner-arm64.sha256");
    assert("forgejo-url"@[0] != "runner-uuid"@[0]);
    assert("runner-url-amd64"@[12] != "runner-url-arm64"@[12]);
    assert("runner-amd64.sha256"@[8] != "runner-arm64.sha256"@[8]);
    let names = file_names();
    assert(names.len() == 11);
    assert(names[0] == "runner-token"@);
    assert(names[1] == "boot.sh"@);
    assert(names[2] == "forgejo-url"@);
    assert(names[3] == "runner-uuid"@);
    assert(names[4] == "runner-labels"@);
    assert(names[5] == "job-handle"@);
    assert(names[6] == "runner-config.yml"@);
    assert(names[7] == "runner-url-amd64"@);
    assert(names[8] == "runner-url-arm64"@);
    assert(names[9] == "runner-amd64.sha256"@);
    assert(names[10] == "runner-arm64.sha256"@);
    assert forall|i: int, j: int| 0 <= i < j < names.len() implies #[trigger] names[i]
        != #[trigger] names[j] by {
        assert(names[i].len() != names[j].len() || (i == 2 && j == 3) || (i == 7 && j == 8) || (i == 9 && j == 10));
    }
}

/// The names of the files, in their order.
spec fn file_names() -> Seq<Seq<char>> {
    Seq::empty().push("runner-token"@).push("boot.sh"@).push("forgejo-url"@).push("runner-uuid"@).push("runner-labels"@).push("job-handle"@).push("runner-config.yml"@).push("runner-url-amd64"@).push("runner-url-arm64"@).push("runner-amd64.sha256"@).push("runner-arm64.sha256"@)
}

proof fn lemma_one_file(config: CloudConfig, at: int)
    requires
        config.write_files@.len() == 11,
        forall|i: int|
            0 <= i < 11 ==> (#[trigger] config.write_files@[i]).path@ == ETC@ + "/"@
                + file_names()[i] && config.write_files@[i].owner@ == "root:root"@,
        0 <= at < 11,
    ensures
        has_file(
            config,
            file_names()[at],
            config.write_files@[at].content@,
            config.write_files@[at].permissions@,
        ),
{
    lemma_names_apart();
    let names = file_names();
    let files = config.write_files@;
    assert forall|i: int, j: int|
        0 <= i < files.len() && 0 <= j < files.len() && (#[trigger] files[i]).path@ == ETC@ + "/"@
            + names[at] && (#[trigger] files[j]).path@ == ETC@ + "/"@ + names[at] implies i == j by {
        let head = (ETC@ + "/"@).len() as int;
        assert(names[i] =~= files[i].path@.skip(head));
        assert(names[j] =~= files[j].path@.skip(head));
        assert(names[at] =~= (ETC@ + "/"@ + names[at]).skip(head));
        if i < j {
            assert(names[i] != names[j]);
        } else if j < i {
            assert(names[j] != names[i]);
        }
    }
}

/// A machine finds in its files what its runner was registered with, where the
/// instance is, which job it is for, under which labels it serves, how long the job
/// may take, and where the runner of either architecture comes from and what its
/// checksum is. The token is readable to root alone.
pub proof fn law_a_machine_is_told_everything_it_needs(
    daemon: &Daemon,
    class: &Class,
    forgejo_url: &str,
    registration: &Registration,
    handle: &str,
    config: CloudConfig,
)
    requires
        call_ensures(cloud_config, (daemon, class, forgejo_url, registration, handle), config),
    ensures
        has_file(config, "runner-token"@, registration.token@, "0600"@),
        has_file(config, "boot.sh"@, BOOT@, "0700"@),
        has_file(config, "forgejo-url"@, forgejo_url@, "0644"@),
        has_file(config, "runner-uuid"@, registration.uuid@, "0644"@),
        has_file(config, "runner-labels"@, label_lines(text::texts(class.labels@)), "0644"@),
        has_file(config, "job-handle"@, handle@, "0644"@),
        has_file(
            config,
            "runner-config.yml"@,
            "runner:\n  timeout: "@ + text::decimal_of(class.job_timeout_minutes as nat)
                + "m\n"@,
            "0644"@,
        ),
        has_file(
            config,
            "runner-url-amd64"@,
            "https://code.forgejo.org/forgejo/runner/releases/download/v"@
                + daemon.runner_version@ + "/forgejo-runner-"@ + daemon.runner_version@
                + "-linux-"@ + "amd64"@,
            "0644"@,
        ),
        has_file(
            config,
            "runner-url-arm64"@,
            "https://code.forgejo.org/forgejo/runner/releases/download/v"@
                + daemon.runner_version@ + "/forgejo-runner-"@ + daemon.runner_version@
                + "-linux-"@ + "arm64"@,
            "0644"@,
        ),
        has_file(
            config,
            "runner-amd64.sha256"@,
            daemon.runner_sha256_amd64@ + "  "@ + "/usr/local/bin/forgejo-runner"@ + "\n"@,
            "0644"@,
        ),
        has_file(
            config,
            "runner-arm64.sha256"@,
            daemon.runner_sha256_arm64@ + "  "@ + "/usr/local/bin/forgejo-runner"@ + "\n"@,
            "0644"@,
        ),
        config.write_files@.len() == 11,
{
    let files = config@.write_files;
    let names = file_names();
    assert(files.len() == config.write_files@.len());
    assert(names.len() == 11);
    assert(names[0] == "runner-token"@);
    assert(names[1] == "boot.sh"@);
    assert(names[2] == "forgejo-url"@);
    assert(names[3] == "runner-uuid"@);
    assert(names[4] == "runner-labels"@);
    assert(names[5] == "job-handle"@);
    assert(names[6] == "runner-config.yml"@);
    assert(names[7] == "runner-url-amd64"@);
    assert(names[8] == "runner-url-arm64"@);
    assert(names[9] == "runner-amd64.sha256"@);
    assert(names[10] == "runner-arm64.sha256"@);
    assert forall|i: int| 0 <= i < 11 implies (#[trigger] config.write_files@[i]).path@ == ETC@
        + "/"@ + names[i] && config.write_files@[i].owner@ == "root:root"@ by {
        assert(files[i] == config.write_files@[i]@);
    }
    assert(files[0] == config.write_files@[0]@);
    lemma_one_file(config, 0);
    assert(files[1] == config.write_files@[1]@);
    lemma_one_file(config, 1);
    assert(files[2] == config.write_files@[2]@);
    lemma_one_file(config, 2);
    assert(files[3] == config.write_files@[3]@);
    lemma_one_file(config, 3);
    assert(files[4] == config.write_files@[4]@);
    lemma_one_file(config, 4);
    assert(files[5] == config.write_files@[5]@);
    lemma_one_file(config, 5);
    assert(files[6] == config.write_files@[6]@);
    lemma_one_file(config, 6);
    assert(files[7] == config.write_files@[7]@);
    lemma_one_file(config, 7);
    assert(files[8] == config.write_files@[8]@);
    lemma_one_file(config, 8);
    assert(files[9] == config.write_files@[9]@);
    lemma_one_file(config, 9);
    assert(files[10] == config.write_files@[10]@);
    lemma_one_file(config, 10);
}

/// The labels stand on lines of their own, in their order, each as the runner takes it.
pub proof fn law_every_label_has_its_line(labels: Seq<Seq<char>>, label: Seq<char>)
    ensures
        label_lines(Seq::empty()) == Seq::<char>::empty(),
        label_lines(labels.push(label)) == label_lines(labels) + label + ":host\n"@,
{
    assert(labels.push(label).drop_last() =~= labels);
}

/// A machine runs the script, and nothing else, and is powered off, whatever it does,
/// when the lifetime of its class is over.
pub proof fn law_a_machine_ends_with_its_lifetime(
    daemon: &Daemon,
    class: &Class,
    forgejo_url: &str,
    registration: &Registration,
    handle: &str,
    config: CloudConfig,
)
    requires
        call_ensures(cloud_config, (daemon, class, forgejo_url, registration, handle), config),
    ensures
        config.runcmd@.len() == 1,
        config.runcmd@[0]@.len() == 2,
        config.runcmd@[0]@[0]@ == "bash"@,
        config.runcmd@[0]@[1]@ == "/etc/forgejo-actions-orchestrator"@ + "/boot.sh"@,
        config.power_state.mode@ == "poweroff"@,
        config.power_state.delay == class.lifetime_minutes,
        config.power_state.condition,
{
    assert(config@.runcmd.len() == 1);
    assert(config@.runcmd[0] == text::texts(config.runcmd@[0]@));
    assert(text::texts(config.runcmd@[0]@)[0] == config.runcmd@[0]@[0]@);
    assert(text::texts(config.runcmd@[0]@)[1] == config.runcmd@[0]@[1]@);
}

/// The document holds the files with all their fields, the commands and the end of the
/// machine, each in its section, and the user data is that document behind the line
/// that says what it is.
pub proof fn law_user_data_holds_the_configuration(
    daemon: &Daemon,
    class: &Class,
    forgejo_url: &str,
    registration: &Registration,
    handle: &str,
    config: CloudConfig,
    whole: Document,
    out: String,
)
    requires
        call_ensures(cloud_config, (daemon, class, forgejo_url, registration, handle), config),
        call_ensures(document, (config,), whole),
        call_ensures(render, (daemon, class, forgejo_url, registration, handle), out),
    ensures
        whole.sections@.len() == 3,
        whole.sections@[0].0@ == "write_files"@,
        whole.sections@[0].1 matches Section::Records(records) && records@.len()
            == config.write_files@.len() && forall|i: int|
            0 <= i < records@.len() ==> {
                &&& (#[trigger] records@[i])@.len() == 4
                &&& records@[i]@[0].0@ == "path"@
                &&& records@[i]@[0].1@ == config.write_files@[i].path@
                &&& records@[i]@[1].0@ == "content"@
                &&& records@[i]@[1].1@ == config.write_files@[i].content@
                &&& records@[i]@[2].0@ == "permissions"@
                &&& records@[i]@[2].1@ == config.write_files@[i].permissions@
                &&& records@[i]@[3].0@ == "owner"@
                &&& records@[i]@[3].1@ == config.write_files@[i].owner@
            },
        whole.sections@[1].0@ == "runcmd"@,
        whole.sections@[1].1 matches Section::Commands(commands) && commands@.map_values(
            |words: Vec<String>| text::texts(words@),
        ) == config.runcmd@.map_values(|words: Vec<String>| text::texts(words@)),
        whole.sections@[2].0@ == "power_state"@,
        whole.sections@[2].1 matches Section::Settings(settings) && {
            &&& settings@.len() == 3
            &&& settings@[0].0@ == "mode"@
            &&& settings@[0].1 matches Setting::Text(mode)
            &&& mode@ == config.power_state.mode@
            &&& settings@[1].0@ == "delay"@
            &&& settings@[1].1 == Setting::Number(config.power_state.delay)
            &&& settings@[2].0@ == "condition"@
            &&& settings@[2].1 == Setting::Flag(config.power_state.condition)
        },
        out@ == "#cloud-config\n"@ + pretty_json(whole@) + "\n"@,
{
    let due = document_of(config@);
    assert(whole@.len() == 3);
    assert(whole@[0] == (whole.sections@[0].0@, whole.sections@[0].1@));
    assert(whole@[1] == (whole.sections@[1].0@, whole.sections@[1].1@));
    assert(whole@[2] == (whole.sections@[2].0@, whole.sections@[2].1@));
    if let Section::Records(records) = whole.sections@[0].1 {
        let views = whole@[0].1->Records_0;
        assert(views == due[0].1->Records_0);
        assert(views.len() == records@.len());
        assert(views.len() == config@.write_files.len());
        assert(config@.write_files.len() == config.write_files@.len());
        assert forall|i: int| 0 <= i < records@.len() implies {
            &&& (#[trigger] records@[i])@.len() == 4
            &&& records@[i]@[0].0@ == "path"@
            &&& records@[i]@[0].1@ == config.write_files@[i].path@
            &&& records@[i]@[1].0@ == "content"@
            &&& records@[i]@[1].1@ == config.write_files@[i].content@
            &&& records@[i]@[2].0@ == "permissions"@
            &&& records@[i]@[2].1@ == config.write_files@[i].permissions@
            &&& records@[i]@[3].0@ == "owner"@
            &&& records@[i]@[3].1@ == config.write_files@[i].owner@
        } by {
            let record = records@[i]@;
            assert(views[i] == record_view(record));
            assert(views[i] == record_of(config@.write_files[i]));
            assert(config@.write_files[i] == config.write_files@[i]@);
            assert(record_view(record).len() == 4);
            assert(record_view(record)[0] == (record[0].0@, record[0].1@));
            assert(record_view(record)[1] == (record[1].0@, record[1].1@));
            assert(record_view(record)[2] == (record[2].0@, record[2].1@));
            assert(record_view(record)[3] == (record[3].0@, record[3].1@));
        }
    }
    if let Section::Settings(settings) = whole.sections@[2].1 {
        let views = whole@[2].1->Settings_0;
        assert(views.len() == 3);
        assert(views[0] == (settings@[0].0@, settings@[0].1@));
        assert(views[1] == (settings@[1].0@, settings@[1].1@));
        assert(views[2] == (settings@[2].0@, settings@[2].1@));
    }
}

} // verus!
