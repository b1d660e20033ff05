//! Vultr.

use vstd::prelude::*;

use crate::http;
use crate::http::{Call, CallView, Method, Payload, PayloadView};
use crate::json;
use crate::json::{Fields, Json, JsonView};
use crate::text;

verus! {

pub const API: &'static str = "https://api.vultr.com/v2";

pub struct Vultr {
    pub token: String,
}

pub open spec fn credential(vultr: Vultr) -> (Seq<char>, Seq<char>) {
    ("Authorization"@, "Bearer "@ + vultr.token@)
}

pub open spec fn instances_url() -> Seq<char> {
    API@ + "/instances"@
}

/// The document an instance is ordered with.
pub open spec fn body_of(
    name: Seq<char>,
    plan: Seq<char>,
    location: Seq<char>,
    os_id: int,
    ssh_key: Option<Seq<char>>,
    user_data: Seq<char>,
) -> JsonView {
    let fields = Seq::empty().push(("region"@, JsonView::Text(location))).push(
        ("plan"@, JsonView::Text(plan)),
    ).push(("os_id"@, JsonView::Number(os_id))).push(("label"@, JsonView::Text(name))).push(
        ("hostname"@, JsonView::Text(name)),
    ).push(("user_data"@, JsonView::Text(super::base64_text(user_data)))).push(
        ("activation_email"@, JsonView::Bool(false)),
    );
    JsonView::Object(
        match ssh_key {
            Some(key) => fields.push(("sshkey_id"@, JsonView::List(seq![JsonView::Text(key)]))),
            None => fields,
        },
    )
}

/// Why an image is not the number of an operating system.
#[derive(Debug)]
pub struct BadImage {
    pub message: String,
    /// What is wrong with it as a number.
    pub cause: String,
}

/// The error tells of this image.
pub open spec fn is_bad(image: Seq<char>, why: BadImage) -> bool {
    &&& text::integer_of(image) is None
    &&& why.message@ == "vultr: image must be a numeric os_id, got "@ + text::debug_text(image)
    &&& text::integer_complaint(image) == Some(why.cause@)
}

/// Why the image is not the number of an operating system, if it is not.
fn fault_of(image: &str) -> (res: Option<BadImage>)
    ensures
        match res {
            Some(why) => is_bad(image@, why),
            None => text::integer_of(image@) is Some,
        },
{
    match text::complaint_of_integer(image) {
        Some(cause) => {
            let shown = text::quoted(image);
            let message = "vultr: image must be a numeric os_id, got ".to_owned().concat(
                shown.as_str(),
            );
            Some(BadImage { message, cause })
        },
        None => None,
    }
}

/// The document an instance is ordered with; the image has to be the number of
/// an operating system.
pub fn create_body(
    name: &str,
    plan: &str,
    location: &str,
    image: &str,
    ssh_key: Option<&str>,
    user_data: &str,
) -> (res: Result<Json, BadImage>)
    ensures
        match res {
            Ok(body) => text::integer_of(image@) matches Some(os_id) && body@ == body_of(
                name@,
                plan@,
                location@,
                os_id,
                super::optional_str(ssh_key),
                user_data@,
            ),
            Err(why) => is_bad(image@, why),
        },
{
    if let Some(why) = fault_of(image) {
        return Err(why);
    }
    let os_id: i64 = text::parse_integer(image).unwrap();
    let encoded = super::base64(user_data);
    let fields = Fields::new().with("region", Json::text(location)).with(
        "plan",
        Json::text(plan),
    ).with("os_id", Json::signed(os_id)).with("label", Json::text(name)).with(
        "hostname",
        Json::text(name),
    ).with("user_data", Json::text(encoded.as_str())).with(
        "activation_email",
        Json::flag(false),
    );
    Ok(
        match ssh_key {
            Some(key) => fields.with("sshkey_id", Json::single(Json::text(key))).object(),
            None => fields.object(),
        },
    )
}

impl Vultr {
    fn auth(&self) -> (res: String)
        ensures
            res@ == credential(*self).1,
    {
        "Bearer ".to_owned().concat(self.token.as_str())
    }

    /// Orders an instance.
    pub fn create(
        &self,
        name: &str,
        plan: &str,
        location: &str,
        image: &str,
        ssh_key: Option<&str>,
        user_data: &str,
    ) -> (res: Result<Call, BadImage>)
        ensures
            match res {
                Ok(call) => text::integer_of(image@) matches Some(os_id) && call@ == (CallView {
                    payload: PayloadView::Json(
                        body_of(
                            name@,
                            plan@,
                            location@,
                            os_id,
                            super::optional_str(ssh_key),
                            user_data@,
                        ),
                    ),
                    ..http::bare(Method::Post, instances_url(), credential(*self))
                }),
                Err(why) => is_bad(image@, why),
            },
    {
        let body = match create_body(name, plan, location, image, ssh_key, user_data) {
            Ok(body) => body,
            Err(why) => {
                return Err(why);
            },
        };
        let url = API.to_owned().concat("/instances");
        Ok(Call::new(Method::Post, url, "Authorization", self.auth()).sending(body))
    }

    /// Deletes an instance.
    pub fn destroy(&self, id: &str) -> (res: Call)
        ensures
            res@ == http::bare(
                Method::Delete,
                instances_url() + "/"@ + id@,
                credential(*self),
            ),
    {
        let url = API.to_owned().concat("/instances").concat("/").concat(id);
        Call::new(Method::Delete, url, "Authorization", self.auth())
    }

    /// Asks for the instances of the account.
    pub fn list(&self) -> (res: Call)
        ensures
            res@ == (CallView {
                query: seq![("per_page"@, "500"@)],
                ..http::bare(Method::Get, instances_url(), credential(*self))
            }),
    {
        let url = API.to_owned().concat("/instances");
        Call::new(Method::Get, url, "Authorization", self.auth()).asking(
            "per_page",
            "500".to_owned(),
        )
    }
}

/// The document orders this instance: under each key stands what the API takes there,
/// and nothing stands under a key twice.
pub open spec fn is_order(
    document: JsonView,
    name: Seq<char>,
    plan: Seq<char>,
    location: Seq<char>,
    os_id: int,
    ssh_key: Option<Seq<char>>,
    user_data: Seq<char>,
) -> bool {
    &&& json::has_field(document, "region"@, JsonView::Text(location))
    &&& json::has_field(document, "plan"@, JsonView::Text(plan))
    &&& json::has_field(document, "os_id"@, JsonView::Number(os_id))
    &&& json::has_field(document, "label"@, JsonView::Text(name))
    &&& json::has_field(document, "hostname"@, JsonView::Text(name))
    &&& json::has_field(document, "user_data"@, JsonView::Text(super::base64_text(user_data)))
    &&& json::has_field(document, "activation_email"@, JsonView::Bool(false))
    &&& match ssh_key {
        Some(key) => json::has_field(
            document,
            "sshkey_id"@,
            JsonView::List(seq![JsonView::Text(key)]),
        ),
        None => json::lacks_field(document, "sshkey_id"@),
    }
}

proof fn lemma_is_order(
    name: Seq<char>,
    plan: Seq<char>,
    location: Seq<char>,
    os_id: int,
    ssh_key: Option<Seq<char>>,
    user_data: Seq<char>,
)
    ensures
        is_order(
            body_of(name, plan, location, os_id, ssh_key, user_data),
            name,
            plan,
            location,
            os_id,
            ssh_key,
            user_data,
        ),
{
    let fields = body_of(name, plan, location, os_id, ssh_key, user_data)->Object_0;
    reveal_strlit("region");
    reveal_strlit("plan");
    reveal_strlit("os_id");
    reveal_strlit("label");
    reveal_strlit("hostname");
    reveal_strlit("user_data");
    reveal_strlit("activation_email");
    reveal_strlit("sshkey_id");
    assert("os_id"@[0] != "label"@[0]);
    assert("user_data"@[0] != "sshkey_id"@[0]);
    assert(fields[0].0 == "region"@);
    assert(fields[1].0 == "plan"@);
    assert(fields[2].0 == "os_id"@);
    assert(fields[3].0 == "label"@);
    assert(fields[4].0 == "hostname"@);
    assert(fields[5].0 == "user_data"@);
    assert(fields[6].0 == "activation_email"@);
    if ssh_key is Some {
        assert(fields[7].0 == "sshkey_id"@);
        assert(fields.len() == 8);
    } else {
        assert(fields.len() == 7);
    }
    assert forall|i: int, j: int| 0 <= i < j < fields.len() implies (#[trigger] fields[i]).0 != (
    #[trigger] fields[j]).0 by {
        assert(fields[i].0.len() != fields[j].0.len() || (i == 2 && j == 3) || (i == 5 && j == 7));
    }
    json::lemma_fields(fields);
}

/// An instance is ordered by name, plan, region, system and encoded user data, each
/// under the key the API takes it under, and with its key where there is one. An
/// image that is no number is refused.
pub proof fn law_an_order_says_what_is_wanted(
    name: &str,
    plan: &str,
    location: &str,
    image: &str,
    ssh_key: Option<&str>,
    user_data: &str,
    res: Result<Json, BadImage>,
)
    requires
        call_ensures(create_body, (name, plan, location, image, ssh_key, user_data), res),
    ensures
        res is Ok <==> text::integer_of(image@) is Some,
        res matches Ok(body) ==> is_order(
            body@,
            name@,
            plan@,
            location@,
            text::integer_of(image@)->0,
            match ssh_key {
                Some(key) => Some(key@),
                None => None,
            },
            user_data@,
        ),
{
    if let Some(os_id) = text::integer_of(image@) {
        lemma_is_order(
            name@,
            plan@,
            location@,
            os_id,
            super::optional_str(ssh_key),
            user_data@,
        );
    }
}

/// The request goes to this place of the API, as this method, with the token.
pub open spec fn goes_to(vultr: Vultr, call: Call, method: Method, path: Seq<char>) -> bool {
    &&& call.method == method
    &&& call.url@ == "https://api.vultr.com/v2"@ + path
    &&& call.credential.0@ == "Authorization"@
    &&& call.credential.1@ == "Bearer "@ + vultr.token@
}

/// An order is posted to the instances.
pub proof fn law_an_order_is_posted(
    vultr: &Vultr,
    name: &str,
    plan: &str,
    location: &str,
    image: &str,
    ssh_key: Option<&str>,
    user_data: &str,
    res: Result<Call, BadImage>,
)
    requires
        call_ensures(
            Vultr::create,
            (vultr, name, plan, location, image, ssh_key, user_data),
            res,
        ),
    ensures
        res is Ok <==> text::integer_of(image@) is Some,
        res matches Ok(call) ==> {
            &&& goes_to(*vultr, call, Method::Post, "/instances"@)
            &&& call.query@.len() == 0
            &&& call.payload matches Payload::Json(body)
            &&& is_order(
                body@,
                name@,
                plan@,
                location@,
                text::integer_of(image@)->0,
                match ssh_key {
                    Some(key) => Some(key@),
                    None => None,
                },
                user_data@,
            )
        },
{
    if let Some(os_id) = text::integer_of(image@) {
        lemma_is_order(
            name@,
            plan@,
            location@,
            os_id,
            super::optional_str(ssh_key),
            user_data@,
        );
    }
    if let Ok(call) = res {
        assert(call@.query.len() == 0);
    }
}

/// The instance that is deleted is the one of the id, and all are listed on one page.
pub proof fn law_instances_are_deleted_and_listed(
    vultr: &Vultr,
    id: &str,
    deleting: Call,
    listing: Call,
)
    requires
        call_ensures(Vultr::destroy, (vultr, id), deleting),
        call_ensures(Vultr::list, (vultr,), listing),
    ensures
        goes_to(*vultr, deleting, Method::Delete, "/instances/"@ + id@),
        deleting.query@.len() == 0,
        goes_to(*vultr, listing, Method::Get, "/instances"@),
        listing.query@.len() == 1,
        listing.query@[0].0@ == "per_page"@,
        listing.query@[0].1@ == "500"@,
{
    assert(deleting@.query.len() == 0);
    assert(listing@.query.len() == 1);
    assert(listing@.query[0] == (listing.query@[0].0@, listing.query@[0].1@));
    reveal_strlit("/instances");
    reveal_strlit("/");
    reveal_strlit("/instances/");
    assert("/instances"@ + "/"@ =~= "/instances/"@);
    assert(deleting.url@ =~= "https://api.vultr.com/v2"@ + ("/instances/"@ + id@));
}

} // verus!
