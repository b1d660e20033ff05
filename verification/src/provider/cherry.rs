//! Cherry Servers.

use vstd::prelude::*;

use crate::http;
use crate::http::{Call, CallView, Method, Payload, PayloadView};
use crate::json;
use crate::json::{Fields, Json, JsonView};

verus! {

pub const API: &'static str = "https://api.cherryservers.com/v1";

pub struct Cherry {
    pub token: String,
    pub project_id: String,
}

pub open spec fn credential(cherry: Cherry) -> (Seq<char>, Seq<char>) {
    ("Authorization"@, "Bearer "@ + cherry.token@)
}

/// Where the servers of the project are.
pub open spec fn servers_url(cherry: Cherry) -> Seq<char> {
    API@ + "/projects/"@ + cherry.project_id@ + "/servers"@
}

/// The document a server is ordered with.
pub open spec fn body_of(
    name: Seq<char>,
    plan: Seq<char>,
    location: Seq<char>,
    image: Seq<char>,
    ssh_key: Option<Seq<char>>,
    user_data: Seq<char>,
) -> JsonView {
    let fields = Seq::empty().push(("hostname"@, JsonView::Text(name))).push(
        ("plan"@, JsonView::Text(plan)),
    ).push(("region"@, JsonView::Text(location))).push(("image"@, JsonView::Text(image))).push(
        ("user_data"@, JsonView::Text(super::base64_text(user_data))),
    );
    JsonView::Object(
        match ssh_key {
            Some(key) => fields.push(("ssh_keys"@, JsonView::List(seq![JsonView::Text(key)]))),
            None => fields,
        },
    )
}

/// The document a server is ordered with.
pub fn create_body(
    name: &str,
    plan: &str,
    location: &str,
    image: &str,
    ssh_key: Option<&str>,
    user_data: &str,
) -> (res: Json)
    ensures
        res@ == body_of(
            name@,
            plan@,
            location@,
            image@,
            super::optional_str(ssh_key),
            user_data@,
        ),
{
    let encoded = super::base64(user_data);
    let fields = Fields::new().with("hostname", Json::text(name)).with(
        "plan",
        Json::text(plan),
    ).with("region", Json::text(location)).with("image", Json::text(image)).with(
        "user_data",
        Json::text(encoded.as_str()),
    );
    match ssh_key {
        Some(key) => fields.with("ssh_keys", Json::single(Json::text(key))).object(),
        None => fields.object(),
    }
}

impl Cherry {
    fn auth(&self) -> (res: String)
        ensures
            res@ == credential(*self).1,
    {
        "Bearer ".to_owned().concat(self.token.as_str())
    }

    fn servers(&self) -> (res: String)
        ensures
            res@ == servers_url(*self),
    {
        API.to_owned().concat("/projects/").concat(self.project_id.as_str()).concat("/servers")
    }

    /// Orders a server.
    pub fn create(
        &self,
        name: &str,
        plan: &str,
        location: &str,
        image: &str,
        ssh_key: Option<&str>,
        user_data: &str,
    ) -> (res: Call)
        ensures
            res@ == (CallView {
                payload: PayloadView::Json(
                    body_of(
                        name@,
                        plan@,
                        location@,
                        image@,
                        super::optional_str(ssh_key),
                        user_data@,
                    ),
                ),
                ..http::bare(Method::Post, servers_url(*self), credential(*self))
            }),
    {
        let body = create_body(name, plan, location, image, ssh_key, user_data);
        Call::new(Method::Post, self.servers(), "Authorization", self.auth()).sending(body)
    }

    /// Deletes a server.
    pub fn destroy(&self, id: &str) -> (res: Call)
        ensures
            res@ == http::bare(Method::Delete, API@ + "/servers/"@ + id@, credential(*self)),
    {
        let url = API.to_owned().concat("/servers/").concat(id);
        Call::new(Method::Delete, url, "Authorization", self.auth())
    }

    /// Asks for the servers of the project.
    pub fn list(&self) -> (res: Call)
        ensures
            res@ == http::bare(Method::Get, servers_url(*self), credential(*self)),
    {
        Call::new(Method::Get, self.servers(), "Authorization", self.auth())
    }
}

/// The document orders this server: under each key stands what the API takes there,
/// and nothing stands under a key twice.
pub open spec fn is_order(
    document: JsonView,
    name: Seq<char>,
    plan: Seq<char>,
    location: Seq<char>,
    image: Seq<char>,
    ssh_key: Option<Seq<char>>,
    user_data: Seq<char>,
) -> bool {
    &&& json::has_field(document, "hostname"@, JsonView::Text(name))
    &&& json::has_field(document, "plan"@, JsonView::Text(plan))
    &&& json::has_field(document, "region"@, JsonView::Text(location))
    &&& json::has_field(document, "image"@, JsonView::Text(image))
    &&& json::has_field(document, "user_data"@, JsonView::Text(super::base64_text(user_data)))
    &&& match ssh_key {
        Some(key) => json::has_field(
            document,
            "ssh_keys"@,
            JsonView::List(seq![JsonView::Text(key)]),
        ),
        None => json::lacks_field(document, "ssh_keys"@),
    }
}

proof fn lemma_is_order(
    name: Seq<char>,
    plan: Seq<char>,
    location: Seq<char>,
    image: Seq<char>,
    ssh_key: Option<Seq<char>>,
    user_data: Seq<char>,
)
    ensures
        is_order(
            body_of(name, plan, location, image, ssh_key, user_data),
            name,
            plan,
            location,
            image,
            ssh_key,
            user_data,
        ),
{
    let fields = body_of(name, plan, location, image, ssh_key, user_data)->Object_0;
    reveal_strlit("hostname");
    reveal_strlit("plan");
    reveal_strlit("region");
    reveal_strlit("image");
    reveal_strlit("user_data");
    reveal_strlit("ssh_keys");
    assert("hostname"@[0] != "ssh_keys"@[0]);
    assert(fields[0].0 == "hostname"@);
    assert(fields[1].0 == "plan"@);
    assert(fields[2].0 == "region"@);
    assert(fields[3].0 == "image"@);
    assert(fields[4].0 == "user_data"@);
    if ssh_key is Some {
        assert(fields[5].0 == "ssh_keys"@);
        assert(fields.len() == 6);
    } else {
        assert(fields.len() == 5);
    }
    assert forall|i: int, j: int| 0 <= i < j < fields.len() implies (#[trigger] fields[i]).0 != (
    #[trigger] fields[j]).0 by {
        assert(fields[i].0.len() != fields[j].0.len() || (i == 0 && j == 5));
    }
    json::lemma_fields(fields);
}

/// A server is ordered by name, plan, region, image and encoded user data, each under
/// the key the API takes it under, and with its key where there is one.
pub proof fn law_an_order_says_what_is_wanted(
    name: &str,
    plan: &str,
    location: &str,
    image: &str,
    ssh_key: Option<&str>,
    user_data: &str,
    body: Json,
)
    requires
        call_ensures(create_body, (name, plan, location, image, ssh_key, user_data), body),
    ensures
        is_order(
            body@,
            name@,
            plan@,
            location@,
            image@,
            match ssh_key {
                Some(key) => Some(key@),
                None => None,
            },
            user_data@,
        ),
{
    lemma_is_order(
        name@,
        plan@,
        location@,
        image@,
        super::optional_str(ssh_key),
        user_data@,
    );
}

/// The request goes to this place of the API, as this method, with the token.
pub open spec fn goes_to(cherry: Cherry, call: Call, method: Method, path: Seq<char>) -> bool {
    &&& call.method == method
    &&& call.url@ == "https://api.cherryservers.com/v1"@ + path
    &&& call.query@.len() == 0
    &&& call.credential.0@ == "Authorization"@
    &&& call.credential.1@ == "Bearer "@ + cherry.token@
}

/// An order is posted to the servers of the project.
pub proof fn law_an_order_is_posted(
    cherry: &Cherry,
    name: &str,
    plan: &str,
    location: &str,
    image: &str,
    ssh_key: Option<&str>,
    user_data: &str,
    call: Call,
)
    requires
        call_ensures(
            Cherry::create,
            (cherry, name, plan, location, image, ssh_key, user_data),
            call,
        ),
    ensures
        goes_to(
            *cherry,
            call,
            Method::Post,
            "/projects/"@ + cherry.project_id@ + "/servers"@,
        ),
        call.payload matches Payload::Json(body) && is_order(
            body@,
            name@,
            plan@,
            location@,
            image@,
            match ssh_key {
                Some(key) => Some(key@),
                None => None,
            },
            user_data@,
        ),
{
    lemma_is_order(
        name@,
        plan@,
        location@,
        image@,
        super::optional_str(ssh_key),
        user_data@,
    );
    assert(call@.query.len() == 0);
    assert(call.url@ =~= "https://api.cherryservers.com/v1"@ + ("/projects/"@
        + cherry.project_id@ + "/servers"@));
}

/// The server that is deleted is the one of the id, wherever it is, and those of the
/// project are listed.
pub proof fn law_servers_are_deleted_and_listed(
    cherry: &Cherry,
    id: &str,
    deleting: Call,
    listing: Call,
)
    requires
        call_ensures(Cherry::destroy, (cherry, id), deleting),
        call_ensures(Cherry::list, (cherry,), listing),
    ensures
        goes_to(*cherry, deleting, Method::Delete, "/servers/"@ + id@),
        goes_to(
            *cherry,
            listing,
            Method::Get,
            "/projects/"@ + cherry.project_id@ + "/servers"@,
        ),
{
    assert(deleting@.query.len() == 0);
    assert(listing@.query.len() == 0);
    assert(deleting.url@ =~= "https://api.cherryservers.com/v1"@ + ("/servers/"@ + id@));
    assert(listing.url@ =~= "https://api.cherryservers.com/v1"@ + ("/projects/"@
        + cherry.project_id@ + "/servers"@));
}

} // verus!
