//! Gcore.

use vstd::prelude::*;

use crate::http;
use crate::http::{Call, CallView, Method, Payload, PayloadView};
use crate::json;
use crate::json::{Fields, Json, JsonView};
use crate::table::Table;
use crate::text;

verus! {

pub const API: &'static str = "https://api.gcore.com/cloud/v1";

/// Only the creation of instances moved to the second version.
pub const CREATE_API: &'static str = "https://api.gcore.com/cloud/v2";

pub const BOOT_VOLUME_GB: u64 = 80;

pub const PAGE_LIMIT: u64 = 1000;

/// How long to wait before asking again, in seconds.
pub const POLL_INTERVAL: u64 = 5;

/// How long an instance may take to be created, in seconds.
pub const CREATE_TIMEOUT: u64 = 600;

pub struct Gcore {
    pub token: String,
    pub project_id: String,
    pub locations: Vec<String>,
    /// The volume types that were found out, by region.
    pub volume_types: Table<&'static str>,
}

/// The task that creates an instance.
#[derive(Debug)]
pub struct Task {
    pub state: String,
    pub error: Option<String>,
    /// The instances it created, where it names any.
    pub instances: Option<Vec<String>>,
}

pub open spec fn credential(gcore: Gcore) -> (Seq<char>, Seq<char>) {
    ("Authorization"@, "APIKey "@ + gcore.token@)
}

/// Where the instances of a region are.
pub open spec fn scope_of(gcore: Gcore, region: Seq<char>) -> Seq<char> {
    API@ + "/instances/"@ + gcore.project_id@ + "/"@ + region
}

/// Where an instance of a region is ordered.
pub open spec fn create_scope_of(gcore: Gcore, region: Seq<char>) -> Seq<char> {
    CREATE_API@ + "/instances/"@ + gcore.project_id@ + "/"@ + region
}

/// The first of the volume types we want that the region offers. Each region
/// sells a different subset and refuses the rest.
pub open spec fn preferred(offered: Seq<Seq<char>>) -> Option<Seq<char>> {
    if offered.contains("ssd_lowlatency"@) {
        Some("ssd_lowlatency"@)
    } else if offered.contains("ssd_hiiops"@) {
        Some("ssd_hiiops"@)
    } else if offered.contains("standard"@) {
        Some("standard"@)
    } else {
        None
    }
}

pub fn preferred_volume_type(offered: &[String]) -> (res: Option<&'static str>)
    ensures
        super::optional_str(res) == preferred(text::texts(offered@)),
{
    if text::holds(offered, "ssd_lowlatency") {
        Some("ssd_lowlatency")
    } else if text::holds(offered, "ssd_hiiops") {
        Some("ssd_hiiops")
    } else if text::holds(offered, "standard") {
        Some("standard")
    } else {
        None
    }
}

/// What is told of a region that sells none of the volume types we want.
pub open spec fn no_volume_text(region: Seq<char>, offered: Seq<Seq<char>>) -> Seq<char> {
    "gcore: region "@ + region
        + " offers none of ssd_lowlatency, ssd_hiiops, standard, only "@ + text::joined(
        offered,
        ", "@,
    )
}

/// The document an instance is ordered with. It never holds a password, which
/// would make the system ignore the user data.
pub open spec fn body_of(
    name: Seq<char>,
    plan: Seq<char>,
    image: Seq<char>,
    volume_type: Seq<char>,
    ssh_key: Option<Seq<char>>,
    user_data: Seq<char>,
) -> JsonView {
    let interface = JsonView::Object(
        Seq::empty().push(("type"@, JsonView::Text("external"@))).push(
            ("ip_family"@, JsonView::Text("ipv4"@)),
        ),
    );
    let volume = JsonView::Object(
        Seq::empty().push(("source"@, JsonView::Text("image"@))).push(
            ("boot_index"@, JsonView::Number(0)),
        ).push(("image_id"@, JsonView::Text(image))).push(
            ("size"@, JsonView::Number(BOOT_VOLUME_GB as int)),
        ).push(("type_name"@, JsonView::Text(volume_type))).push(
            ("delete_on_termination"@, JsonView::Bool(true)),
        ),
    );
    let fields = Seq::empty().push(("flavor"@, JsonView::Text(plan))).push(
        ("name"@, JsonView::Text(name)),
    ).push(("interfaces"@, JsonView::List(seq![interface]))).push(
        ("volumes"@, JsonView::List(seq![volume])),
    ).push(("user_data"@, JsonView::Text(super::base64_text(user_data))));
    JsonView::Object(
        match ssh_key {
            Some(key) => fields.push(("ssh_key_name"@, JsonView::Text(key))),
            None => fields,
        },
    )
}

/// The document an instance is ordered with.
pub fn create_body(
    name: &str,
    plan: &str,
    image: &str,
    volume_type: &str,
    ssh_key: Option<&str>,
    user_data: &str,
) -> (res: Json)
    ensures
        res@ == body_of(
            name@,
            plan@,
            image@,
            volume_type@,
            super::optional_str(ssh_key),
            user_data@,
        ),
{
    let interface = Fields::new().with("type", Json::text("external")).with(
        "ip_family",
        Json::text("ipv4"),
    ).object();
    let volume = Fields::new().with("source", Json::text("image")).with(
        "boot_index",
        Json::unsigned(0),
    ).with("image_id", Json::text(image)).with("size", Json::unsigned(BOOT_VOLUME_GB)).with(
        "type_name",
        Json::text(volume_type),
    ).with("delete_on_termination", Json::flag(true)).object();
    let encoded = super::base64(user_data);
    let fields = Fields::new().with("flavor", Json::text(plan)).with(
        "name",
        Json::text(name),
    ).with("interfaces", Json::single(interface)).with("volumes", Json::single(volume)).with(
        "user_data",
        Json::text(encoded.as_str()),
    );
    match ssh_key {
        Some(key) => fields.with("ssh_key_name", Json::text(key)).object(),
        None => fields.object(),
    }
}

pub fn machine_id(region: &str, instance: &str) -> (res: String)
    ensures
        res@ == super::composite_id(region@, instance@),
{
    region.to_owned().concat("/").concat(instance)
}

/// The region and the instance of an id: what stands before and behind its first slash.
pub fn split_id(id: &str) -> (res: Result<(&str, &str), String>)
    ensures
        match res {
            Ok((region, instance)) => super::splits_into(id@, region@, instance@),
            Err(why) => !id@.contains('/') && why@ == "gcore: instance id "@ + text::debug_text(
                id@,
            ) + " is not <region>/<uuid>"@,
        },
{
    match text::split_once(id, '/') {
        Some((region, instance)) => {
            proof {
                reveal_strlit("/");
                assert("/"@ =~= seq!['/']);
            }
            Ok((region, instance))
        },
        None => {
            let shown = text::quoted(id);
            Err(
                "gcore: instance id ".to_owned().concat(shown.as_str()).concat(
                    " is not <region>/<uuid>",
                ),
            )
        },
    }
}

/// The instance a task created, or what is told of one that created none.
pub open spec fn created_by(task: Task, id: Seq<char>) -> Result<Seq<char>, Seq<char>> {
    match task.instances {
        Some(instances) if instances@.len() > 0 => Ok(instances@[0]@),
        _ => Err("gcore: create task "@ + id + " created no instance"@),
    }
}

/// The first instance a finished task created.
pub fn instance_of(task: &Task, id: &str) -> (res: Result<String, String>)
    ensures
        match res {
            Ok(instance) => created_by(*task, id@) == Ok::<Seq<char>, Seq<char>>(instance@),
            Err(why) => created_by(*task, id@) == Err::<Seq<char>, Seq<char>>(why@),
        },
{
    match &task.instances {
        Some(instances) => {
            if instances.len() > 0 {
                return Ok(instances[0].clone());
            }
        },
        None => {},
    }
    Err("gcore: create task ".to_owned().concat(id).concat(" created no instance"))
}

/// What becomes of a task that creates an instance: nothing while it goes on and
/// time is left.
pub open spec fn task_outcome(task: Task, id: Seq<char>, waited: u64) -> Option<
    Result<Seq<char>, Seq<char>>,
> {
    if task.state@ == "FINISHED"@ {
        Some(created_by(task, id))
    } else if task.state@ == "ERROR"@ {
        Some(
            Err(
                "gcore: create task "@ + id + " failed: "@ + match task.error {
                    Some(error) => error@,
                    None => "no detail"@,
                },
            ),
        )
    } else if waited >= CREATE_TIMEOUT * 1_000_000_000 {
        Some(Err("gcore: create task "@ + id + " unfinished after 600s"@))
    } else {
        None
    }
}

/// What becomes of a task that creates an instance, or nothing if it is to be
/// looked at again; `waited` is how long it has been looked at, in nanoseconds.
pub fn task_polled(task: &Task, id: &str, waited: u64) -> (res: Option<Result<String, String>>)
    ensures
        task_outcome(*task, id@, waited) == match res {
            Some(Ok(instance)) => Some(Ok::<Seq<char>, Seq<char>>(instance@)),
            Some(Err(why)) => Some(Err::<Seq<char>, Seq<char>>(why@)),
            None => None,
        },
{
    let state = task.state.as_str();
    if text::same(state, "FINISHED") {
        Some(instance_of(task, id))
    } else if text::same(state, "ERROR") {
        let detail = match &task.error {
            Some(error) => error.as_str(),
            None => "no detail",
        };
        Some(Err("gcore: create task ".to_owned().concat(id).concat(" failed: ").concat(detail)))
    } else if waited >= CREATE_TIMEOUT * 1_000_000_000 {
        Some(Err("gcore: create task ".to_owned().concat(id).concat(" unfinished after 600s")))
    } else {
        None
    }
}

/// The task an order was accepted with: the first of those named.
pub fn first_task(tasks: Vec<String>) -> (res: Result<String, String>)
    ensures
        match res {
            Ok(task) => tasks@.len() > 0 && task == tasks@[0],
            Err(why) => tasks@.len() == 0 && why@
                == "gcore: creating instance returned no task"@,
        },
{
    let mut tasks = tasks;
    if tasks.len() == 0 {
        Err("gcore: creating instance returned no task".to_owned())
    } else {
        Ok(tasks.remove(0))
    }
}

impl Gcore {
    fn auth(&self) -> (res: String)
        ensures
            res@ == credential(*self).1,
    {
        "APIKey ".to_owned().concat(self.token.as_str())
    }

    fn call(&self, method: Method, url: String) -> (res: Call)
        ensures
            res@ == http::bare(method, url@, credential(*self)),
    {
        Call::new(method, url, "Authorization", self.auth())
    }

    fn scope(&self, region: &str) -> (res: String)
        ensures
            res@ == scope_of(*self, region@),
    {
        API.to_owned().concat("/instances/").concat(self.project_id.as_str()).concat("/").concat(
            region,
        )
    }

    fn create_scope(&self, region: &str) -> (res: String)
        ensures
            res@ == create_scope_of(*self, region@),
    {
        CREATE_API.to_owned().concat("/instances/").concat(self.project_id.as_str()).concat(
            "/",
        ).concat(region)
    }

    /// The volume type of a region, where it was found out already.
    pub fn cached_volume_type(&self, region: &str) -> (res: Option<&'static str>)
        ensures
            match res {
                Some(found) => self.volume_types@.contains_key(region@) && found
                    == self.volume_types@[region@],
                None => !self.volume_types@.contains_key(region@),
            },
    {
        match self.volume_types.get(region) {
            Some(found) => Some(*found),
            None => None,
        }
    }

    /// Asks for the volume types of a region, which are told only on request.
    pub fn volume_type(&self, region: &str) -> (res: Call)
        ensures
            res@ == (CallView {
                query: seq![("show_volume_types"@, "true"@)],
                ..http::bare(Method::Get, API@ + "/regions/"@ + region@, credential(*self))
            }),
    {
        let url = API.to_owned().concat("/regions/").concat(region);
        self.call(Method::Get, url).asking("show_volume_types", "true".to_owned())
    }

    /// Takes note of the volume types a region offers, and picks one.
    pub fn choose_volume_type(&mut self, region: &str, offered: &[String]) -> (res: Result<
        &'static str,
        String,
    >)
        ensures
            ({
                let wanted = preferred(text::texts(offered@));
                match res {
                    Ok(chosen) => {
                        &&& wanted == Some(chosen@)
                        &&& final(self).volume_types@ == old(self).volume_types@.insert(
                            region@,
                            chosen,
                        )
                    },
                    Err(why) => {
                        &&& wanted is None
                        &&& why@ == no_volume_text(region@, text::texts(offered@))
                        &&& final(self).volume_types@ == old(self).volume_types@
                    },
                }
            }),
            final(self).token == old(self).token,
            final(self).project_id == old(self).project_id,
            final(self).locations == old(self).locations,
    {
        match preferred_volume_type(offered) {
            Some(chosen) => {
                self.volume_types.insert(region.to_owned(), chosen);
                Ok(chosen)
            },
            None => {
                let listed = text::join(offered, ", ");
                Err(
                    "gcore: region ".to_owned().concat(region).concat(
                        " offers none of ssd_lowlatency, ssd_hiiops, standard, only ",
                    ).concat(listed.as_str()),
                )
            },
        }
    }

    /// Orders an instance.
    pub fn create(
        &self,
        name: &str,
        plan: &str,
        location: &str,
        image: &str,
        volume_type: &str,
        ssh_key: Option<&str>,
        user_data: &str,
    ) -> (res: Call)
        ensures
            res@ == (CallView {
                payload: PayloadView::Json(
                    body_of(
                        name@,
                        plan@,
                        image@,
                        volume_type@,
                        super::optional_str(ssh_key),
                        user_data@,
                    ),
                ),
                ..http::bare(
                    Method::Post,
                    create_scope_of(*self, location@),
                    credential(*self),
                )
            }),
    {
        let body = create_body(name, plan, image, volume_type, ssh_key, user_data);
        self.call(Method::Post, self.create_scope(location)).sending(body)
    }

    /// Looks at a task.
    pub fn task(&self, task: &str) -> (res: Call)
        ensures
            res@ == http::bare(Method::Get, API@ + "/tasks/"@ + task@, credential(*self)),
    {
        let url = API.to_owned().concat("/tasks/").concat(task);
        self.call(Method::Get, url)
    }

    /// Asks for an instance.
    pub fn inspect(&self, region: &str, instance: &str) -> (res: Call)
        ensures
            res@ == http::bare(
                Method::Get,
                scope_of(*self, region@) + "/"@ + instance@,
                credential(*self),
            ),
    {
        self.call(Method::Get, self.scope(region).concat("/").concat(instance))
    }

    /// Deletes an instance, and with it the volumes: the API keeps every volume
    /// that the request does not name.
    pub fn destroy(&self, region: &str, instance: &str, volumes: &[String]) -> (res: Call)
        ensures
            res@ == ({
                let bare = http::bare(
                    Method::Delete,
                    scope_of(*self, region@) + "/"@ + instance@,
                    credential(*self),
                );
                let query = Seq::empty().push(("delete_floatings"@, "true"@));
                CallView {
                    query: if volumes@.len() == 0 {
                        query
                    } else {
                        query.push(
                            ("volumes"@, text::joined(text::texts(volumes@), ","@)),
                        )
                    },
                    ..bare
                }
            }),
    {
        let url = self.scope(region).concat("/").concat(instance);
        let call = self.call(Method::Delete, url).asking("delete_floatings", "true".to_owned());
        if volumes.len() == 0 {
            call
        } else {
            call.asking("volumes", text::join(volumes, ","))
        }
    }

    /// Asks for the instances of a region.
    pub fn list(&self, region: &str) -> (res: Call)
        ensures
            res@ == (CallView {
                query: seq![("limit"@, text::decimal_of(PAGE_LIMIT as nat))],
                ..http::bare(Method::Get, scope_of(*self, region@), credential(*self))
            }),
    {
        self.call(Method::Get, self.scope(region)).asking("limit", text::decimal(PAGE_LIMIT))
    }
}

/// An id that was put together comes apart into the same parts, as long as the
/// region holds no slash.
pub proof fn law_split_id_inverts_machine_id(
    region: Seq<char>,
    instance: Seq<char>,
    a: Seq<char>,
    b: Seq<char>,
)
    requires
        !region.contains('/'),
        super::splits_into(super::composite_id(region, instance), a, b),
    ensures
        a == region,
        b == instance,
{
    reveal_strlit("/");
    assert("/"@ =~= seq!['/']);
    text::lemma_split_unique(region, instance, a, b, '/');
}

/// The volume type that is asked for is one that the region offers.
pub proof fn law_only_offered_volume_types(offered: Seq<Seq<char>>)
    ensures
        preferred(offered) matches Some(chosen) ==> offered.contains(chosen),
{
}

/// The document orders this instance: under each key stands what the API takes there,
/// and nothing stands under a key twice. The one volume is made of the image, is of
/// the type that is wanted, is eighty gigabytes large and goes with the instance; the
/// one interface is public; there is no password.
pub open spec fn is_order(
    document: JsonView,
    name: Seq<char>,
    plan: Seq<char>,
    image: Seq<char>,
    volume_type: Seq<char>,
    ssh_key: Option<Seq<char>>,
    user_data: Seq<char>,
) -> bool {
    &&& json::has_field(document, "flavor"@, JsonView::Text(plan))
    &&& json::has_field(document, "name"@, JsonView::Text(name))
    &&& json::has_field(document, "user_data"@, JsonView::Text(super::base64_text(user_data)))
    &&& json::lacks_field(document, "password"@)
    &&& exists|volume: JsonView|
        {
            &&& #[trigger] json::has_field(
                document,
                "volumes"@,
                JsonView::List(seq![volume]),
            )
            &&& json::has_field(volume, "source"@, JsonView::Text("image"@))
            &&& json::has_field(volume, "boot_index"@, JsonView::Number(0))
            &&& json::has_field(volume, "image_id"@, JsonView::Text(image))
            &&& json::has_field(volume, "size"@, JsonView::Number(80))
            &&& json::has_field(volume, "type_name"@, JsonView::Text(volume_type))
            &&& json::has_field(volume, "delete_on_termination"@, JsonView::Bool(true))
        }
    &&& exists|interface: JsonView|
        {
            &&& #[trigger] json::has_field(
                document,
                "interfaces"@,
                JsonView::List(seq![interface]),
            )
            &&& json::has_field(interface, "type"@, JsonView::Text("external"@))
            &&& json::has_field(interface, "ip_family"@, JsonView::Text("ipv4"@))
        }
    &&& match ssh_key {
        Some(key) => json::has_field(document, "ssh_key_name"@, JsonView::Text(key)),
        None => json::lacks_field(document, "ssh_key_name"@),
    }
}

proof fn lemma_is_order(
    name: Seq<char>,
    plan: Seq<char>,
    image: Seq<char>,
    volume_type: Seq<char>,
    ssh_key: Option<Seq<char>>,
    user_data: Seq<char>,
)
    ensures
        is_order(
            body_of(name, plan, image, volume_type, ssh_key, user_data),
            name,
            plan,
            image,
            volume_type,
            ssh_key,
            user_data,
        ),
{
    let document = body_of(name, plan, image, volume_type, ssh_key, user_data);
    let fields = document->Object_0;
    reveal_strlit("password");
    reveal_strlit("flavor");
    reveal_strlit("name");
    reveal_strlit("interfaces");
    reveal_strlit("volumes");
    reveal_strlit("user_data");
    reveal_strlit("ssh_key_name");
    assert(fields[0].0 == "flavor"@);
    assert(fields[1].0 == "name"@);
    assert(fields[2].0 == "interfaces"@);
    assert(fields[3].0 == "volumes"@);
    assert(fields[4].0 == "user_data"@);
    if ssh_key is Some {
        assert(fields[5].0 == "ssh_key_name"@);
        assert(fields.len() == 6);
    } else {
        assert(fields.len() == 5);
    }
    assert forall|i: int, j: int| 0 <= i < j < fields.len() implies (#[trigger] fields[i]).0 != (
    #[trigger] fields[j]).0 by {
        assert(fields[i].0.len() != fields[j].0.len());
    }
    json::lemma_fields(fields);
    let interface = fields[2].1->List_0[0];
    let faces = interface->Object_0;
    reveal_strlit("type");
    reveal_strlit("ip_family");
    assert(faces[0].0 == "type"@);
    assert(faces[1].0 == "ip_family"@);
    assert(faces.len() == 2);
    assert forall|i: int, j: int| 0 <= i < j < faces.len() implies (#[trigger] faces[i]).0 != (
    #[trigger] faces[j]).0 by {
        assert(faces[i].0.len() != faces[j].0.len());
    }
    json::lemma_fields(faces);
    let volume = fields[3].1->List_0[0];
    let parts = volume->Object_0;
    reveal_strlit("source");
    reveal_strlit("boot_index");
    reveal_strlit("image_id");
    reveal_strlit("size");
    reveal_strlit("type_name");
    reveal_strlit("delete_on_termination");
    assert(parts[0].0 == "source"@);
    assert(parts[1].0 == "boot_index"@);
    assert(parts[2].0 == "image_id"@);
    assert(parts[3].0 == "size"@);
    assert(parts[4].0 == "type_name"@);
    assert(parts[5].0 == "delete_on_termination"@);
    assert(parts.len() == 6);
    assert forall|i: int, j: int| 0 <= i < j < parts.len() implies (#[trigger] parts[i]).0 != (
    #[trigger] parts[j]).0 by {
        assert(parts[i].0.len() != parts[j].0.len());
    }
    json::lemma_fields(parts);
    assert(json::has_field(document, "volumes"@, JsonView::List(seq![volume])));
    assert(json::has_field(document, "interfaces"@, JsonView::List(seq![interface])));
}

/// An instance is ordered by name, plan, image, volume type and encoded user data,
/// each under the key the API takes it under, and with its key where there is one.
pub proof fn law_an_order_says_what_is_wanted(
    name: &str,
    plan: &str,
    image: &str,
    volume_type: &str,
    ssh_key: Option<&str>,
    user_data: &str,
    body: Json,
)
    requires
        call_ensures(create_body, (name, plan, image, volume_type, ssh_key, user_data), body),
    ensures
        is_order(
            body@,
            name@,
            plan@,
            image@,
            volume_type@,
            match ssh_key {
                Some(key) => Some(key@),
                None => None,
            },
            user_data@,
        ),
{
    lemma_is_order(
        name@,
        plan@,
        image@,
        volume_type@,
        super::optional_str(ssh_key),
        user_data@,
    );
}

/// The request goes to this place of the API, as this method, with the token.
pub open spec fn goes_to(gcore: Gcore, call: Call, method: Method, url: Seq<char>) -> bool {
    &&& call.method == method
    &&& call.url@ == "https://api.gcore.com/cloud"@ + url
    &&& call.credential.0@ == "Authorization"@
    &&& call.credential.1@ == "APIKey "@ + gcore.token@
}

proof fn lemma_urls(rest: Seq<char>)
    ensures
        API@ + rest == "https://api.gcore.com/cloud"@ + ("/v1"@ + rest),
        CREATE_API@ + rest == "https://api.gcore.com/cloud"@ + ("/v2"@ + rest),
{
    reveal_strlit("https://api.gcore.com/cloud/v1");
    reveal_strlit("https://api.gcore.com/cloud/v2");
    reveal_strlit("https://api.gcore.com/cloud");
    reveal_strlit("/v1");
    reveal_strlit("/v2");
    assert("https://api.gcore.com/cloud"@ + "/v1"@ =~= "https://api.gcore.com/cloud/v1"@);
    assert("https://api.gcore.com/cloud"@ + "/v2"@ =~= "https://api.gcore.com/cloud/v2"@);
    assert(API@ + rest =~= "https://api.gcore.com/cloud"@ + ("/v1"@ + rest));
    assert(CREATE_API@ + rest =~= "https://api.gcore.com/cloud"@ + ("/v2"@ + rest));
}

/// The path of the instances of a region, or of one of them.
pub open spec fn instances_path(gcore: Gcore, region: Seq<char>) -> Seq<char> {
    "/instances/"@ + gcore.project_id@ + "/"@ + region
}

/// An order is posted to the second version of the API, for the project, in the
/// region of the location.
pub proof fn law_an_order_is_posted(
    gcore: &Gcore,
    name: &str,
    plan: &str,
    location: &str,
    image: &str,
    volume_type: &str,
    ssh_key: Option<&str>,
    user_data: &str,
    call: Call,
)
    requires
        call_ensures(
            Gcore::create,
            (gcore, name, plan, location, image, volume_type, ssh_key, user_data),
            call,
        ),
    ensures
        goes_to(
            *gcore,
            call,
            Method::Post,
            "/v2"@ + ("/instances/"@ + gcore.project_id@ + "/"@ + location@),
        ),
        call.query@.len() == 0,
        call.payload matches Payload::Json(body) && is_order(
            body@,
            name@,
            plan@,
            image@,
            volume_type@,
            match ssh_key {
                Some(key) => Some(key@),
                None => None,
            },
            user_data@,
        ),
{
    lemma_is_order(
        name@,
        plan@,
        image@,
        volume_type@,
        super::optional_str(ssh_key),
        user_data@,
    );
    let path = instances_path(*gcore, location@);
    lemma_urls(path);
    assert(create_scope_of(*gcore, location@) =~= CREATE_API@ + path);
    assert(call@.query.len() == 0);
}

/// What is looked at, and what is listed, is what was named, in the region that was
/// named; a thousand instances are asked for at once.
pub proof fn law_what_is_named_is_asked_about(
    gcore: &Gcore,
    region: &str,
    instance: &str,
    task: &str,
    inspecting: Call,
    looking: Call,
    listing: Call,
    offering: Call,
)
    requires
        call_ensures(Gcore::inspect, (gcore, region, instance), inspecting),
        call_ensures(Gcore::task, (gcore, task), looking),
        call_ensures(Gcore::list, (gcore, region), listing),
        call_ensures(Gcore::volume_type, (gcore, region), offering),
    ensures
        goes_to(
            *gcore,
            inspecting,
            Method::Get,
            "/v1"@ + ("/instances/"@ + gcore.project_id@ + "/"@ + region@ + "/"@ + instance@),
        ),
        goes_to(*gcore, looking, Method::Get, "/v1"@ + ("/tasks/"@ + task@)),
        goes_to(
            *gcore,
            listing,
            Method::Get,
            "/v1"@ + ("/instances/"@ + gcore.project_id@ + "/"@ + region@),
        ),
        listing.query@.len() == 1,
        listing.query@[0].0@ == "limit"@,
        listing.query@[0].1@ == text::decimal_of(1000),
        goes_to(*gcore, offering, Method::Get, "/v1"@ + ("/regions/"@ + region@)),
        offering.query@.len() == 1,
        offering.query@[0].0@ == "show_volume_types"@,
        offering.query@[0].1@ == "true"@,
{
    let path = instances_path(*gcore, region@);
    let own = path + "/"@ + instance@;
    lemma_urls(path);
    lemma_urls(own);
    lemma_urls("/tasks/"@ + task@);
    lemma_urls("/regions/"@ + region@);
    assert(scope_of(*gcore, region@) =~= API@ + path);
    assert(inspecting.url@ =~= API@ + own);
    assert(looking.url@ =~= API@ + ("/tasks/"@ + task@));
    assert(offering.url@ =~= API@ + ("/regions/"@ + region@));
    assert(listing@.query.len() == 1);
    assert(listing@.query[0] == (listing.query@[0].0@, listing.query@[0].1@));
    assert(offering@.query.len() == 1);
    assert(offering@.query[0] == (offering.query@[0].0@, offering.query@[0].1@));
}

/// An instance is deleted with its addresses and with all of the volumes that are
/// named, however many there are.
pub proof fn law_an_instance_goes_with_its_volumes(
    gcore: &Gcore,
    region: &str,
    instance: &str,
    volumes: &[String],
    call: Call,
)
    requires
        call_ensures(Gcore::destroy, (gcore, region, instance, volumes), call),
    ensures
        goes_to(
            *gcore,
            call,
            Method::Delete,
            "/v1"@ + ("/instances/"@ + gcore.project_id@ + "/"@ + region@ + "/"@ + instance@),
        ),
        call.query@[0].0@ == "delete_floatings"@,
        call.query@[0].1@ == "true"@,
        volumes@.len() == 0 ==> call.query@.len() == 1,
        volumes@.len() > 0 ==> {
            &&& call.query@.len() == 2
            &&& call.query@[1].0@ == "volumes"@
            &&& call.query@[1].1@ == text::joined(text::texts(volumes@), ","@)
        },
{
    let own = instances_path(*gcore, region@) + "/"@ + instance@;
    lemma_urls(own);
    assert(call.url@ =~= API@ + own);
    if volumes@.len() > 0 {
        assert(call@.query.len() == 2);
        assert(call@.query[0] == (call.query@[0].0@, call.query@[0].1@));
        assert(call@.query[1] == (call.query@[1].0@, call.query@[1].1@));
    } else {
        assert(call@.query.len() == 1);
        assert(call@.query[0] == (call.query@[0].0@, call.query@[0].1@));
    }
}

/// A volume type is chosen that the region offers: the low-latency one before the
/// high-throughput one, and that before the standard one. There is none only where
/// the region offers none of the three.
pub proof fn law_the_best_offered_volume_type(offered: &[String], res: Option<&'static str>)
    requires
        call_ensures(preferred_volume_type, (offered,), res),
    ensures
        text::texts(offered@).contains("ssd_lowlatency"@) ==> (res matches Some(chosen)
            && chosen@ == "ssd_lowlatency"@),
        !text::texts(offered@).contains("ssd_lowlatency"@) && text::texts(offered@).contains(
            "ssd_hiiops"@,
        ) ==> (res matches Some(chosen) && chosen@ == "ssd_hiiops"@),
        !text::texts(offered@).contains("ssd_lowlatency"@) && !text::texts(offered@).contains(
            "ssd_hiiops"@,
        ) && text::texts(offered@).contains("standard"@) ==> (res matches Some(chosen)
            && chosen@ == "standard"@),
        res matches Some(chosen) ==> text::texts(offered@).contains(chosen@),
{
}

/// A task that is looked at counts as done once it says so: with its first instance,
/// or as failed. One that says neither is waited for, ten minutes at most.
pub proof fn law_a_task_is_waited_for(
    task: &Task,
    id: &str,
    waited: u64,
    res: Option<Result<String, String>>,
)
    requires
        call_ensures(task_polled, (task, id, waited), res),
    ensures
        task.state@ == "FINISHED"@ ==> (res matches Some(outcome) && (match task.instances {
            Some(instances) => instances@.len() > 0 ==> (outcome matches Ok(instance) && instance@
                == instances@[0]@),
            None => outcome is Err,
        })),
        task.state@ == "FINISHED"@ ==> (res matches Some(outcome) && (
        task.instances matches Some(instances) ==> (instances@.len() == 0 ==> outcome is Err))),
        task.state@ == "ERROR"@ ==> (res matches Some(outcome) && outcome is Err),
        task.state@ != "FINISHED"@ && task.state@ != "ERROR"@ ==> {
            &&& waited < 600_000_000_000 ==> res is None
            &&& waited >= 600_000_000_000 ==> (res matches Some(outcome) && outcome is Err)
        },
{
    reveal_strlit("FINISHED");
    reveal_strlit("ERROR");
    assert("FINISHED"@.len() != "ERROR"@.len());
}

/// The parts of an id are what it was put together of.
pub proof fn law_an_id_comes_apart<'a>(
    region: &str,
    instance: &str,
    id: String,
    parts: Result<(&'a str, &'a str), String>,
    whole: &'a str,
)
    requires
        !region@.contains('/'),
        call_ensures(machine_id, (region, instance), id),
        whole@ == id@,
        call_ensures(split_id, (whole,), parts),
    ensures
        id@ == region@ + seq!['/'] + instance@,
        parts matches Ok((first, second)) && first@ == region@ && second@ == instance@,
{
    reveal_strlit("/");
    assert("/"@ =~= seq!['/']);
    assert(id@[region@.len() as int] == '/');
    if let Ok((first, second)) = parts {
        law_split_id_inverts_machine_id(region@, instance@, first@, second@);
    }
}

/// A finished task is answered by the first instance it created, or by its id if it
/// created none.
pub proof fn law_a_task_names_its_instance(task: &Task, id: &str, res: Result<String, String>)
    requires
        call_ensures(instance_of, (task, id), res),
    ensures
        match res {
            Ok(instance) => task.instances matches Some(all) && all@.len() > 0 && instance@
                == all@[0]@,
            Err(why) => (task.instances matches Some(all) ==> all@.len() == 0) && why@
                == "gcore: create task "@ + id@ + " created no instance"@,
        },
{
}

/// The volume type that was chosen for a region is kept for it, and no other region is
/// touched; where none was chosen, nothing is kept.
pub proof fn law_a_chosen_volume_type_is_kept(
    gcore: &mut Gcore,
    region: &str,
    offered: &[String],
    res: Result<&'static str, String>,
    other: Seq<char>,
)
    requires
        call_ensures(Gcore::choose_volume_type, (gcore, region, offered), res),
        other != region@,
    ensures
        ({
            let before = old(gcore).volume_types@;
            let after = final(gcore).volume_types@;
            &&& res matches Ok(chosen) ==> after.contains_key(region@) && after[region@] == chosen
                && exists|i: int| 0 <= i < offered@.len() && (#[trigger] offered@[i])@ == chosen@
            &&& res is Err ==> after == before
            &&& after.contains_key(other) <==> before.contains_key(other)
            &&& before.contains_key(other) ==> after[other] == before[other]
        }),
{
    if let Ok(chosen) = res {
        let all = text::texts(offered@);
        assert(all.contains(chosen@));
        let i = choose|i: int| 0 <= i < all.len() && all[i] == chosen@;
        assert(offered@[i]@ == chosen@);
    }
}

} // verus!
