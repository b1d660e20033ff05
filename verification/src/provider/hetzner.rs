//! Hetzner Cloud.

use vstd::prelude::*;

use crate::http;
use crate::http::{Call, CallView, Method, Payload, PayloadView};
use crate::json;
use crate::json::{Fields, Json, JsonView};
use crate::text;

verus! {

pub const API: &'static str = "https://api.hetzner.cloud/v1";

pub const PER_PAGE: u32 = 50;

pub struct Hetzner {
    pub token: String,
}

#[derive(Debug)]
pub struct ServerType {
    pub architecture: String,
    pub locations: Vec<TypeLocation>,
}

/// A location a server type is listed in; older versions of the API do not say
/// whether it is available there.
#[derive(Debug)]
pub struct TypeLocation {
    pub name: String,
    pub available: Option<bool>,
}

pub open spec fn credential(hetzner: Hetzner) -> (Seq<char>, Seq<char>) {
    ("Authorization"@, "Bearer "@ + hetzner.token@)
}

/// The location in place `at` is the first of this name.
pub open spec fn names_location(
    locations: Seq<TypeLocation>,
    location: Seq<char>,
    at: int,
) -> bool {
    &&& 0 <= at < locations.len()
    &&& locations[at].name@ == location
    &&& forall|j: int| 0 <= j < at ==> (#[trigger] locations[j]).name@ != location
}

/// Only an explicit refusal blocks a placement: a location that is not listed,
/// or of which nothing is said, is left for the API to judge.
pub open spec fn offered(server_type: ServerType, location: Seq<char>) -> bool {
    forall|at: int|
        #[trigger] names_location(server_type.locations@, location, at)
            ==> server_type.locations@[at].available != Some(false)
}

/// Whether the type may be asked for in the location.
pub fn offered_in(server_type: &ServerType, location: &str) -> (res: bool)
    ensures
        res == offered(*server_type, location@),
{
    let ghost locations = server_type.locations@;
    let mut i: usize = 0;
    while i < server_type.locations.len()
        invariant
            i <= locations.len(),
            locations == server_type.locations@,
            forall|j: int| 0 <= j < i ==> (#[trigger] locations[j]).name@ != location@,
        decreases locations.len() - i,
    {
        let candidate = &server_type.locations[i];
        if text::same(candidate.name.as_str(), location) {
            proof {
                assert(names_location(locations, location@, i as int));
            }
            return match candidate.available {
                Some(available) => available,
                None => true,
            };
        }
        i += 1;
    }
    true
}

/// Holds a placement to what is in stock.
pub fn in_stock(server_type: &ServerType, plan: &str, location: &str) -> (res: Result<(), String>)
    ensures
        match res {
            Ok(()) => offered(*server_type, location@),
            Err(why) => !offered(*server_type, location@) && why@ == "hetzner: "@ + plan@
                + " is out of stock in "@ + location@,
        },
{
    if offered_in(server_type, location) {
        Ok(())
    } else {
        Err("hetzner: ".to_owned().concat(plan).concat(" is out of stock in ").concat(location))
    }
}

/// The server type of a plan: the first that the API lists under its name.
pub fn first_type(types: Vec<ServerType>, plan: &str) -> (res: Result<ServerType, String>)
    ensures
        match res {
            Ok(found) => types@.len() > 0 && found == types@[0],
            Err(why) => types@.len() == 0 && why@ == "hetzner: unknown server type "@ + plan@,
        },
{
    let mut types = types;
    if types.len() == 0 {
        Err("hetzner: unknown server type ".to_owned().concat(plan))
    } else {
        Ok(types.remove(0))
    }
}

/// The id of an image, where the configuration gives it as a number.
pub fn image_id(image: &str) -> (res: Option<i64>)
    ensures
        match res {
            Some(id) => text::integer_of(image@) == Some(id as int),
            None => text::integer_of(image@) is None,
        },
{
    text::parse_integer(image)
}

/// The image of a name: the first that the API lists for the architecture.
pub fn first_image(ids: &[i64], image: &str, architecture: &str) -> (res: Result<i64, String>)
    ensures
        match res {
            Ok(id) => ids@.len() > 0 && id == ids@[0],
            Err(why) => ids@.len() == 0 && why@ == "hetzner: no "@ + architecture@
                + " image named "@ + image@,
        },
{
    if ids.len() == 0 {
        Err(
            "hetzner: no ".to_owned().concat(architecture).concat(" image named ").concat(image),
        )
    } else {
        Ok(ids[0])
    }
}

/// The document a server is ordered with.
pub open spec fn body_of(
    name: Seq<char>,
    plan: Seq<char>,
    location: Seq<char>,
    image: int,
    ssh_key: Option<Seq<char>>,
    user_data: Seq<char>,
) -> JsonView {
    let fields = Seq::empty().push(("name"@, JsonView::Text(name))).push(
        ("server_type"@, JsonView::Text(plan)),
    ).push(("location"@, JsonView::Text(location))).push(("image"@, JsonView::Number(image))).push(
        ("user_data"@, JsonView::Text(user_data)),
    ).push(("start_after_create"@, JsonView::Bool(true)));
    JsonView::Object(
        match ssh_key {
            Some(key) => fields.push(("ssh_keys"@, JsonView::List(seq![JsonView::Text(key)]))),
            None => fields,
        },
    )
}

pub fn create_body(
    name: &str,
    plan: &str,
    location: &str,
    image: i64,
    ssh_key: Option<&str>,
    user_data: &str,
) -> (res: Json)
    ensures
        res@ == body_of(
            name@,
            plan@,
            location@,
            image as int,
            super::optional_str(ssh_key),
            user_data@,
        ),
{
    let fields = Fields::new().with("name", Json::text(name)).with(
        "server_type",
        Json::text(plan),
    ).with("location", Json::text(location)).with("image", Json::signed(image)).with(
        "user_data",
        Json::text(user_data),
    ).with("start_after_create", Json::flag(true));
    match ssh_key {
        Some(key) => fields.with("ssh_keys", Json::single(Json::text(key))).object(),
        None => fields.object(),
    }
}

impl Hetzner {
    fn auth(&self) -> (res: String)
        ensures
            res@ == credential(*self).1,
    {
        "Bearer ".to_owned().concat(self.token.as_str())
    }

    fn call(&self, method: Method, path: &str) -> (res: Call)
        ensures
            res@ == http::bare(method, API@ + path@, credential(*self)),
    {
        Call::new(method, API.to_owned().concat(path), "Authorization", self.auth())
    }

    /// Asks for the server type of a plan.
    pub fn server_type(&self, plan: &str) -> (res: Call)
        ensures
            res@ == (CallView {
                query: seq![("name"@, plan@)],
                ..http::bare(Method::Get, API@ + "/server_types"@, credential(*self))
            }),
    {
        self.call(Method::Get, "/server_types").asking("name", plan.to_owned())
    }

    /// Asks for the image of a name: one name covers both architectures under
    /// different ids, and the API picks neither by itself.
    pub fn image_for(&self, image: &str, architecture: &str) -> (res: Call)
        ensures
            res@ == (CallView {
                query: Seq::empty().push(("name"@, image@)).push(
                    ("architecture"@, architecture@),
                ),
                ..http::bare(Method::Get, API@ + "/images"@, credential(*self))
            }),
    {
        self.call(Method::Get, "/images").asking("name", image.to_owned()).asking(
            "architecture",
            architecture.to_owned(),
        )
    }

    /// Orders a server.
    pub fn create(
        &self,
        name: &str,
        plan: &str,
        location: &str,
        image: i64,
        ssh_key: Option<&str>,
        user_data: &str,
    ) -> (res: Call)
        ensures
            res@ == (CallView {
                payload: PayloadView::Json(
                    body_of(
                        name@,
                        plan@,
                        location@,
                        image as int,
                        super::optional_str(ssh_key),
                        user_data@,
                    ),
                ),
                ..http::bare(Method::Post, API@ + "/servers"@, credential(*self))
            }),
    {
        let body = create_body(name, plan, location, image, ssh_key, user_data);
        self.call(Method::Post, "/servers").sending(body)
    }

    /// Deletes a server.
    pub fn destroy(&self, id: &str) -> (res: Call)
        ensures
            res@ == http::bare(Method::Delete, API@ + ("/servers/"@ + id@), credential(*self)),
    {
        let path = "/servers/".to_owned().concat(id);
        self.call(Method::Delete, path.as_str())
    }

    /// Asks for one page of the servers.
    pub fn list(&self, page: u32) -> (res: Call)
        ensures
            res@ == (CallView {
                query: Seq::empty().push(("per_page"@, text::decimal_of(PER_PAGE as nat))).push(
                    ("page"@, text::decimal_of(page as nat)),
                ),
                ..http::bare(Method::Get, API@ + "/servers"@, credential(*self))
            }),
    {
        self.call(Method::Get, "/servers").asking(
            "per_page",
            text::decimal(PER_PAGE as u64),
        ).asking("page", text::decimal(page as u64))
    }
}

/// A server that is to be ordered.
pub struct Order<'a> {
    pub name: &'a str,
    pub plan: &'a str,
    pub location: &'a str,
    pub image: &'a str,
    pub ssh_key: Option<&'a str>,
    pub user_data: &'a str,
}

/// What an order takes next.
pub enum Next {
    /// The image has to be looked up for this architecture.
    Image { call: Call, architecture: String },
    /// The order can be placed.
    Create(Call),
}

pub enum NextView {
    Image { call: CallView, architecture: Seq<char> },
    Create(CallView),
}

impl View for Next {
    type V = NextView;

    open spec fn view(&self) -> NextView {
        match self {
            Next::Image { call, architecture } => NextView::Image {
                call: call@,
                architecture: architecture@,
            },
            Next::Create(call) => NextView::Create(call@),
        }
    }
}

/// The request that places an order with this image.
pub open spec fn placing(hetzner: Hetzner, order: Order, image: int) -> CallView {
    CallView {
        payload: PayloadView::Json(
            body_of(
                order.name@,
                order.plan@,
                order.location@,
                image,
                super::optional_str(order.ssh_key),
                order.user_data@,
            ),
        ),
        ..http::bare(Method::Post, API@ + "/servers"@, credential(hetzner))
    }
}

/// What an order takes once the types of its plan are known.
pub open spec fn typed(hetzner: Hetzner, order: Order, types: Seq<ServerType>) -> Result<
    NextView,
    Seq<char>,
> {
    if types.len() == 0 {
        Err("hetzner: unknown server type "@ + order.plan@)
    } else if !offered(types[0], order.location@) {
        Err("hetzner: "@ + order.plan@ + " is out of stock in "@ + order.location@)
    } else {
        match text::integer_of(order.image@) {
            Some(id) => Ok(NextView::Create(placing(hetzner, order, id))),
            None => Ok(
                NextView::Image {
                    call: CallView {
                        query: Seq::empty().push(("name"@, order.image@)).push(
                            ("architecture"@, types[0].architecture@),
                        ),
                        ..http::bare(Method::Get, API@ + "/images"@, credential(hetzner))
                    },
                    architecture: types[0].architecture@,
                },
            ),
        }
    }
}

impl Hetzner {
    /// Goes on with an order once the types of its plan are known.
    pub fn order_typed(&self, order: &Order, types: Vec<ServerType>) -> (res: Result<Next, String>)
        ensures
            match res {
                Ok(next) => typed(*self, *order, types@) == Ok::<NextView, Seq<char>>(next@),
                Err(why) => typed(*self, *order, types@) == Err::<NextView, Seq<char>>(why@),
            },
    {
        let server_type = match first_type(types, order.plan) {
            Ok(server_type) => server_type,
            Err(why) => {
                return Err(why);
            },
        };
        if let Err(why) = in_stock(&server_type, order.plan, order.location) {
            return Err(why);
        }
        match image_id(order.image) {
            Some(id) => Ok(Next::Create(self.place(order, id))),
            None => Ok(
                Next::Image {
                    call: self.image_for(order.image, server_type.architecture.as_str()),
                    architecture: server_type.architecture,
                },
            ),
        }
    }

    /// Goes on with an order once the images of its name are known.
    pub fn order_imaged(&self, order: &Order, architecture: &str, ids: &[i64]) -> (res: Result<
        Call,
        String,
    >)
        ensures
            match res {
                Ok(call) => ids@.len() > 0 && call@ == placing(*self, *order, ids@[0] as int),
                Err(why) => ids@.len() == 0 && why@ == "hetzner: no "@ + architecture@
                    + " image named "@ + order.image@,
            },
    {
        match first_image(ids, order.image, architecture) {
            Ok(id) => Ok(self.place(order, id)),
            Err(why) => Err(why),
        }
    }

    fn place(&self, order: &Order, image: i64) -> (res: Call)
        ensures
            res@ == placing(*self, *order, image as int),
    {
        self.create(
            order.name,
            order.plan,
            order.location,
            image,
            order.ssh_key,
            order.user_data,
        )
    }
}

/// The document orders this server: under each key stands what the API takes there,
/// and nothing stands under a key twice.
pub open spec fn is_order(
    document: JsonView,
    name: Seq<char>,
    plan: Seq<char>,
    location: Seq<char>,
    image: int,
    ssh_key: Option<Seq<char>>,
    user_data: Seq<char>,
) -> bool {
    &&& json::has_field(document, "name"@, JsonView::Text(name))
    &&& json::has_field(document, "server_type"@, JsonView::Text(plan))
    &&& json::has_field(document, "location"@, JsonView::Text(location))
    &&& json::has_field(document, "image"@, JsonView::Number(image))
    &&& json::has_field(document, "user_data"@, JsonView::Text(user_data))
    &&& json::has_field(document, "start_after_create"@, JsonView::Bool(true))
    &&& match ssh_key {
        Some(key) => json::has_field(
            document,
            "ssh_keys"@,
            JsonView::List(seq![JsonView::Text(key)]),
        ),
        None => json::lacks_field(document, "ssh_keys"@),
    }
}

proof fn lemma_is_order(
    name: Seq<char>,
    plan: Seq<char>,
    location: Seq<char>,
    image: int,
    ssh_key: Option<Seq<char>>,
    user_data: Seq<char>,
)
    ensures
        is_order(
            body_of(name, plan, location, image, ssh_key, user_data),
            name,
            plan,
            location,
            image,
            ssh_key,
            user_data,
        ),
{
    reveal_strlit("name");
    reveal_strlit("server_type");
    reveal_strlit("location");
    reveal_strlit("image");
    reveal_strlit("user_data");
    reveal_strlit("start_after_create");
    reveal_strlit("ssh_keys");
    assert("location"@[0] != "ssh_keys"@[0]);
    let fields = body_of(name, plan, location, image, ssh_key, user_data)->Object_0;
    assert(fields[0].0 == "name"@ && fields[1].0 == "server_type"@ && fields[2].0
        == "location"@ && fields[3].0 == "image"@ && fields[4].0 == "user_data"@ && fields[5].0
        == "start_after_create"@);
    if ssh_key is Some {
        assert(fields[6].0 == "ssh_keys"@);
        assert(fields.len() == 7);
    } else {
        assert(fields.len() == 6);
    }
    assert forall|i: int, j: int| 0 <= i < j < fields.len() implies (#[trigger] fields[i]).0 != (
    #[trigger] fields[j]).0 by {
        assert(fields[i].0.len() != fields[j].0.len() || (i == 2 && j == 6));
    }
    json::lemma_fields(fields);
}

/// A server is ordered by name, plan, location, image and user data, each under the
/// key the API takes it under, and with its key where there is one.
pub proof fn law_an_order_says_what_is_wanted(
    name: &str,
    plan: &str,
    location: &str,
    image: i64,
    ssh_key: Option<&str>,
    user_data: &str,
    body: Json,
)
    requires
        call_ensures(create_body, (name, plan, location, image, ssh_key, user_data), body),
    ensures
        is_order(
            body@,
            name@,
            plan@,
            location@,
            image as int,
            match ssh_key {
                Some(key) => Some(key@),
                None => None,
            },
            user_data@,
        ),
{
    lemma_is_order(
        name@,
        plan@,
        location@,
        image as int,
        super::optional_str(ssh_key),
        user_data@,
    );
}

/// The request goes to this place of the API, as this method, with the token.
pub open spec fn goes_to(hetzner: Hetzner, call: Call, method: Method, path: Seq<char>) -> bool {
    &&& call.method == method
    &&& call.url@ == "https://api.hetzner.cloud/v1"@ + path
    &&& call.credential.0@ == "Authorization"@
    &&& call.credential.1@ == "Bearer "@ + hetzner.token@
}

/// An order is posted to the servers, whether it was put together in one go or its
/// image had to be looked up: then the first image that was found is the one.
pub proof fn law_an_order_is_posted(
    hetzner: &Hetzner,
    name: &str,
    plan: &str,
    location: &str,
    image: i64,
    ssh_key: Option<&str>,
    user_data: &str,
    call: Call,
)
    requires
        call_ensures(
            Hetzner::create,
            (hetzner, name, plan, location, image, ssh_key, user_data),
            call,
        ),
    ensures
        goes_to(*hetzner, call, Method::Post, "/servers"@),
        call.query@.len() == 0,
        call.payload matches Payload::Json(body) && is_order(
            body@,
            name@,
            plan@,
            location@,
            image as int,
            match ssh_key {
                Some(key) => Some(key@),
                None => None,
            },
            user_data@,
        ),
{
    lemma_is_order(
        name@,
        plan@,
        location@,
        image as int,
        super::optional_str(ssh_key),
        user_data@,
    );
    assert(call@.query.len() == 0);
}

/// Once the types of a plan are known, an order of an image that is a number is
/// placed with that number; any other image is first looked up by its name, for the
/// architecture of the first type. A plan without a type, and one that the location
/// declares out of stock, are refused.
pub proof fn law_an_order_goes_by_its_type(
    hetzner: &Hetzner,
    order: &Order,
    types: Vec<ServerType>,
    res: Result<Next, String>,
)
    requires
        call_ensures(Hetzner::order_typed, (hetzner, order, types), res),
    ensures
        types@.len() == 0 ==> res is Err,
        (types@.len() > 0 && exists|i: int|
            0 <= i < types@[0].locations@.len() && (
            #[trigger] types@[0].locations@[i]).name@ == order.location@
                && types@[0].locations@[i].available == Some(false) && forall|j: int|
                0 <= j < i ==> (#[trigger] types@[0].locations@[j]).name@ != order.location@)
            ==> res is Err,
        (types@.len() > 0 && forall|i: int|
            0 <= i < types@[0].locations@.len() ==> (
            #[trigger] types@[0].locations@[i]).available != Some(false)) ==> res is Ok,
        res matches Ok(Next::Create(call)) ==> {
            &&& text::integer_of(order.image@) is Some
            &&& goes_to(*hetzner, call, Method::Post, "/servers"@)
            &&& call.payload matches Payload::Json(body)
            &&& is_order(
                body@,
                order.name@,
                order.plan@,
                order.location@,
                text::integer_of(order.image@)->0,
                match order.ssh_key {
                    Some(key) => Some(key@),
                    None => None,
                },
                order.user_data@,
            )
        },
        res matches Ok(Next::Image { call, architecture }) ==> {
            &&& text::integer_of(order.image@) is None
            &&& architecture@ == types@[0].architecture@
            &&& goes_to(*hetzner, call, Method::Get, "/images"@)
            &&& call.query@.len() == 2
            &&& call.query@[0].0@ == "name"@
            &&& call.query@[0].1@ == order.image@
            &&& call.query@[1].0@ == "architecture"@
            &&& call.query@[1].1@ == types@[0].architecture@
        },
{
    if let Some(id) = text::integer_of(order.image@) {
        lemma_is_order(
            order.name@,
            order.plan@,
            order.location@,
            id,
            super::optional_str(order.ssh_key),
            order.user_data@,
        );
    }
    if types@.len() > 0 {
        let locations = types@[0].locations@;
        if exists|i: int|
            0 <= i < locations.len() && (#[trigger] locations[i]).name@ == order.location@
                && locations[i].available == Some(false) && forall|j: int|
                0 <= j < i ==> (#[trigger] locations[j]).name@ != order.location@ {
            let i = choose|i: int|
                0 <= i < locations.len() && (#[trigger] locations[i]).name@ == order.location@
                    && locations[i].available == Some(false) && forall|j: int|
                    0 <= j < i ==> (#[trigger] locations[j]).name@ != order.location@;
            assert(names_location(locations, order.location@, i));
        }
    }
    if let Ok(Next::Image { call, architecture }) = res {
        assert(call@.query.len() == 2);
        assert(call@.query[0] == (call.query@[0].0@, call.query@[0].1@));
        assert(call@.query[1] == (call.query@[1].0@, call.query@[1].1@));
    }
}

/// An order whose image was looked up is placed with the first image that was found,
/// and refused where none was.
pub proof fn law_the_first_image_is_taken(
    hetzner: &Hetzner,
    order: &Order,
    architecture: &str,
    ids: &[i64],
    res: Result<Call, String>,
)
    requires
        call_ensures(Hetzner::order_imaged, (hetzner, order, architecture, ids), res),
    ensures
        res is Ok <==> ids@.len() > 0,
        res matches Ok(call) ==> {
            &&& goes_to(*hetzner, call, Method::Post, "/servers"@)
            &&& call.payload matches Payload::Json(body)
            &&& is_order(
                body@,
                order.name@,
                order.plan@,
                order.location@,
                ids@[0] as int,
                match order.ssh_key {
                    Some(key) => Some(key@),
                    None => None,
                },
                order.user_data@,
            )
        },
{
    if ids@.len() > 0 {
        lemma_is_order(
            order.name@,
            order.plan@,
            order.location@,
            ids@[0] as int,
            super::optional_str(order.ssh_key),
            order.user_data@,
        );
    }
}

/// A plan is looked up by its name.
pub proof fn law_a_plan_is_looked_up(hetzner: &Hetzner, plan: &str, call: Call)
    requires
        call_ensures(Hetzner::server_type, (hetzner, plan), call),
    ensures
        goes_to(*hetzner, call, Method::Get, "/server_types"@),
        call.query@.len() == 1,
        call.query@[0].0@ == "name"@,
        call.query@[0].1@ == plan@,
{
    assert(call@.query.len() == 1);
    assert(call@.query[0] == (call.query@[0].0@, call.query@[0].1@));
}

/// The server that is deleted is the one of the id, and no listing is asked for but
/// the page that is wanted.
pub proof fn law_servers_are_deleted_and_listed(
    hetzner: &Hetzner,
    id: &str,
    page: u32,
    deleting: Call,
    listing: Call,
)
    requires
        call_ensures(Hetzner::destroy, (hetzner, id), deleting),
        call_ensures(Hetzner::list, (hetzner, page), listing),
    ensures
        goes_to(*hetzner, deleting, Method::Delete, "/servers/"@ + id@),
        goes_to(*hetzner, listing, Method::Get, "/servers"@),
        listing.query@.len() == 2,
        listing.query@[0].0@ == "per_page"@,
        listing.query@[0].1@ == text::decimal_of(50),
        listing.query@[1].0@ == "page"@,
        listing.query@[1].1@ == text::decimal_of(page as nat),
{
    assert(listing@.query.len() == 2);
    assert(listing@.query[0] == (listing.query@[0].0@, listing.query@[0].1@));
    assert(listing@.query[1] == (listing.query@[1].0@, listing.query@[1].1@));
}

/// A type is refused in a location only where the first entry for it says that it is not
/// available; what is not listed, and what nothing is said of, is left to be tried.
pub proof fn law_only_a_refusal_is_out_of_stock(
    server_type: &ServerType,
    plan: &str,
    location: &str,
    may: bool,
    res: Result<(), String>,
)
    requires
        call_ensures(offered_in, (server_type, location), may),
        call_ensures(in_stock, (server_type, plan, location), res),
    ensures
        ({
            let places = server_type.locations@;
            let barred = exists|at: int|
                {
                    &&& 0 <= at < places.len()
                    &&& (#[trigger] places[at]).name@ == location@
                    &&& places[at].available == Some(false)
                    &&& forall|j: int| 0 <= j < at ==> (#[trigger] places[j]).name@ != location@
                };
            &&& may <==> !barred
            &&& res is Ok <==> !barred
            &&& res matches Err(why) ==> why@ == "hetzner: "@ + plan@ + " is out of stock in "@
                + location@
        }),
{
    let places = server_type.locations@;
    if !offered(*server_type, location@) {
        let at = choose|at: int|
            #[trigger] names_location(places, location@, at) && places[at].available == Some(
                false,
            );
        assert(places[at].name@ == location@);
    }
    if exists|at: int|
        {
            &&& 0 <= at < places.len()
            &&& (#[trigger] places[at]).name@ == location@
            &&& places[at].available == Some(false)
            &&& forall|j: int| 0 <= j < at ==> (#[trigger] places[j]).name@ != location@
        } {
        let at = choose|at: int|
            {
                &&& 0 <= at < places.len()
                &&& (#[trigger] places[at]).name@ == location@
                &&& places[at].available == Some(false)
                &&& forall|j: int| 0 <= j < at ==> (#[trigger] places[j]).name@ != location@
            };
        assert(names_location(places, location@, at));
    }
}

} // verus!
