//! The gateway's declarative configuration: the route table, the tri-axis
//! policy, route matching, and decoding a configuration out of a parsed YAML
//! document.

use vstd::prelude::*;

use crate::json::{obj_first, JsonV, JsonValue};
use crate::strutil::{
    eq_ignore_ascii_case, split_at_seps, split_str, str_eq_ignore_case, to_upper, trim_str,
    trim_ws,
};

verus! {

/// The tri-axis policy: what to do on a validation error, and which headers to
/// stamp.
#[derive(Clone, Copy, PartialEq, Eq, Structural, Debug)]
pub struct GlobalConfig {
    pub forward_on_error: bool,
    pub add_error_header: bool,
    pub add_validation_header: bool,
}

impl Default for GlobalConfig {
    fn default() -> (r: Self)
        ensures
            r.forward_on_error && r.add_error_header && r.add_validation_header,
    {
        GlobalConfig { forward_on_error: true, add_error_header: true, add_validation_header: true }
    }
}

/// A route's partial policy: each axis either overrides the global value or
/// defers to it.
#[derive(Clone, Copy, PartialEq, Eq, Structural, Debug)]
pub struct RouteConfig {
    pub forward_on_error: Option<bool>,
    pub add_error_header: Option<bool>,
    pub add_validation_header: Option<bool>,
}

impl Default for RouteConfig {
    fn default() -> (r: Self)
        ensures
            r.forward_on_error is None,
            r.add_error_header is None,
            r.add_validation_header is None,
    {
        RouteConfig { forward_on_error: None, add_error_header: None, add_validation_header: None }
    }
}

/// Where a route's OpenAPI spec comes from: a bare path, or a path with an
/// explicit operation id.
pub enum OpenApiSource {
    Spec(String),
    Detailed(OpenApiRouteConfig),
}

pub struct OpenApiRouteConfig {
    pub spec: String,
    pub operation_id: Option<String>,
}

pub struct OpenApiOptions {
    pub spec: String,
    pub operation_id: Option<String>,
}

pub struct Route {
    pub path: String,
    pub method: String,
    pub schema: Option<String>,
    pub openapi: Option<OpenApiSource>,
    pub upstream: String,
    pub config: RouteConfig,
}

pub struct Config {
    pub routes: Vec<Route>,
    pub global: GlobalConfig,
}

// ---------------------------------------------------------------------------
// Views
// ---------------------------------------------------------------------------
pub struct OpenApiRouteConfigV {
    pub spec: Seq<char>,
    pub operation_id: Option<Seq<char>>,
}

pub enum OpenApiSourceV {
    Spec(Seq<char>),
    Detailed(OpenApiRouteConfigV),
}

pub struct OpenApiOptionsV {
    pub spec: Seq<char>,
    pub operation_id: Option<Seq<char>>,
}

pub struct RouteV {
    pub path: Seq<char>,
    pub method: Seq<char>,
    pub schema: Option<Seq<char>>,
    pub openapi: Option<OpenApiSourceV>,
    pub upstream: Seq<char>,
    pub config: RouteConfig,
}

pub struct ConfigV {
    pub routes: Seq<RouteV>,
    pub global: GlobalConfig,
}

pub open spec fn view_opt_string(o: Option<String>) -> Option<Seq<char>> {
    match o {
        Some(s) => Some(s@),
        None => None,
    }
}

impl View for OpenApiRouteConfig {
    type V = OpenApiRouteConfigV;

    open spec fn view(&self) -> OpenApiRouteConfigV {
        OpenApiRouteConfigV { spec: self.spec@, operation_id: view_opt_string(self.operation_id) }
    }
}

impl View for OpenApiSource {
    type V = OpenApiSourceV;

    open spec fn view(&self) -> OpenApiSourceV {
        match self {
            OpenApiSource::Spec(p) => OpenApiSourceV::Spec(p@),
            OpenApiSource::Detailed(c) => OpenApiSourceV::Detailed(c@),
        }
    }
}

impl View for OpenApiOptions {
    type V = OpenApiOptionsV;

    open spec fn view(&self) -> OpenApiOptionsV {
        OpenApiOptionsV { spec: self.spec@, operation_id: view_opt_string(self.operation_id) }
    }
}

impl View for Route {
    type V = RouteV;

    open spec fn view(&self) -> RouteV {
        RouteV {
            path: self.path@,
            method: self.method@,
            schema: view_opt_string(self.schema),
            openapi: match self.openapi {
                Some(s) => Some(s@),
                None => None,
            },
            upstream: self.upstream@,
            config: self.config,
        }
    }
}

pub open spec fn view_routes(routes: Seq<Route>) -> Seq<RouteV>
    decreases routes,
{
    if routes.len() == 0 {
        Seq::<RouteV>::empty()
    } else {
        seq![routes[0]@] + view_routes(routes.drop_first())
    }
}

pub broadcast proof fn lemma_view_routes(routes: Seq<Route>)
    ensures
        (#[trigger] view_routes(routes)).len() == routes.len(),
        forall|i: int| 0 <= i < routes.len() ==> view_routes(routes)[i] == #[trigger] routes[i]@,
    decreases routes,
{
    if routes.len() > 0 {
        lemma_view_routes(routes.drop_first());
        assert(view_routes(routes) == seq![routes[0]@] + view_routes(routes.drop_first()));
        assert(forall|i: int|
            1 <= i < routes.len() ==> view_routes(routes)[i] == view_routes(routes.drop_first())[i
                - 1]);
        assert(forall|i: int|
            1 <= i < routes.len() ==> view_routes(routes.drop_first())[i - 1]
                == #[trigger] routes.drop_first()[i - 1]@);
        assert(forall|i: int| 1 <= i < routes.len() ==> routes.drop_first()[i - 1] == routes[i]);
    } else {
        assert(view_routes(routes) == Seq::<RouteV>::empty());
    }
}

impl View for Config {
    type V = ConfigV;

    open spec fn view(&self) -> ConfigV {
        ConfigV { routes: view_routes(self.routes@), global: self.global }
    }
}

// ---------------------------------------------------------------------------
// Route matching
// ---------------------------------------------------------------------------
/// A template segment that stands for a path parameter: it begins with a colon
/// or is wrapped in braces.
pub open spec fn is_param_segment(seg: Seq<char>) -> bool {
    (seg.len() > 0 && seg[0] == ':') || (seg.len() >= 2 && seg[0] == '{' && seg.last() == '}')
}

pub fn is_param_segment_exec(seg: &str) -> (r: bool)
    ensures
        r == is_param_segment(seg@),
{
    let n = seg.unicode_len();
    if n == 0 {
        return false;
    }
    let c0 = seg.get_char(0);
    c0 == ':' || (n >= 2 && c0 == '{' && seg.get_char(n - 1) == '}')
}

/// Aligned segments match: equal counts, a parameter takes any non-empty
/// actual segment, and a literal requires equality.
pub open spec fn segments_match(tpl: Seq<Seq<char>>, act: Seq<Seq<char>>) -> bool {
    tpl.len() == act.len() && forall|i: int|
        0 <= i < tpl.len() ==> (if is_param_segment(#[trigger] tpl[i]) {
            act[i].len() > 0
        } else {
            act[i] == tpl[i]
        })
}

/// The route accepts `(path, method)`: methods equal ignoring ASCII case, and
/// the `/`-separated segments match position by position.
pub open spec fn spec_route_matches(r: RouteV, path: Seq<char>, method: Seq<char>) -> bool {
    eq_ignore_ascii_case(r.method, method) && segments_match(
        split_at_seps(r.path, '/'),
        split_at_seps(path, '/'),
    )
}

impl Route {
    /// Whether this route accepts the request's path and method.
    pub fn matches(&self, path: &str, method: &str) -> (r: bool)
        ensures
            r == spec_route_matches(self@, path@, method@),
    {
        if !str_eq_ignore_case(self.method.as_str(), method) {
            return false;
        }
        let tpl = split_str(self.path.as_str(), '/');
        let act = split_str(path, '/');
        if tpl.len() != act.len() {
            return false;
        }
        let mut i: usize = 0;
        while i < tpl.len()
            invariant
                i <= tpl.len(),
                tpl.len() == act.len(),
                tpl.deep_view() == split_at_seps(self@.path, '/'),
                act.deep_view() == split_at_seps(path@, '/'),
                tpl.deep_view().len() == tpl.len(),
                act.deep_view().len() == act.len(),
                forall|j: int|
                    0 <= j < i ==> (if is_param_segment(#[trigger] tpl.deep_view()[j]) {
                        act.deep_view()[j].len() > 0
                    } else {
                        act.deep_view()[j] == tpl.deep_view()[j]
                    }),
            decreases tpl.len() - i,
        {
            proof {
                assert(tpl.deep_view()[i as int] == tpl@[i as int]@);
                assert(act.deep_view()[i as int] == act@[i as int]@);
            }
            if is_param_segment_exec(tpl[i].as_str()) {
                if act[i].unicode_len() == 0 {
                    proof {
                        assert(!segments_match(tpl.deep_view(), act.deep_view()));
                    }
                    return false;
                }
            } else {
                if !(tpl[i] == act[i]) {
                    proof {
                        assert(!segments_match(tpl.deep_view(), act.deep_view()));
                    }
                    return false;
                }
            }
            i = i + 1;
        }
        true
    }
}

// ---------------------------------------------------------------------------
// Route selection and effective policy
// ---------------------------------------------------------------------------
/// The first configured route that matches, position winning ties.
pub open spec fn spec_find_route(routes: Seq<RouteV>, path: Seq<char>, method: Seq<char>) -> Option<
    RouteV,
>
    decreases routes.len(),
{
    if routes.len() == 0 {
        None
    } else if spec_route_matches(routes[0], path, method) {
        Some(routes[0])
    } else {
        spec_find_route(routes.drop_first(), path, method)
    }
}

proof fn lemma_find_route_at(routes: Seq<RouteV>, path: Seq<char>, method: Seq<char>, at: int)
    requires
        0 <= at < routes.len(),
        spec_route_matches(routes[at], path, method),
        forall|j: int| 0 <= j < at ==> !spec_route_matches(#[trigger] routes[j], path, method),
    ensures
        spec_find_route(routes, path, method) == Some(routes[at]),
    decreases at,
{
    if at > 0 {
        lemma_find_route_at(routes.drop_first(), path, method, at - 1);
    }
}

proof fn lemma_find_route_none(routes: Seq<RouteV>, path: Seq<char>, method: Seq<char>)
    requires
        forall|j: int|
            0 <= j < routes.len() ==> !spec_route_matches(#[trigger] routes[j], path, method),
    ensures
        spec_find_route(routes, path, method) is None,
    decreases routes.len(),
{
    if routes.len() > 0 {
        lemma_find_route_none(routes.drop_first(), path, method);
    }
}

/// Each axis of the effective policy: the route's override where it has one,
/// else the global value.
pub open spec fn spec_effective(global: GlobalConfig, overrides: RouteConfig) -> GlobalConfig {
    GlobalConfig {
        forward_on_error: match overrides.forward_on_error {
            Some(b) => b,
            None => global.forward_on_error,
        },
        add_error_header: match overrides.add_error_header {
            Some(b) => b,
            None => global.add_error_header,
        },
        add_validation_header: match overrides.add_validation_header {
            Some(b) => b,
            None => global.add_validation_header,
        },
    }
}

impl Config {
    /// The first route matching `(path, method)`, in configuration order.
    pub fn find_route<'a>(&'a self, path: &str, method: &str) -> (r: Option<&'a Route>)
        ensures
            match r {
                Some(x) => spec_find_route(self@.routes, path@, method@) == Some(x@),
                None => spec_find_route(self@.routes, path@, method@) is None,
            },
    {
        proof {
            lemma_view_routes(self.routes@);
        }
        let ghost vr = self@.routes;
        let mut i: usize = 0;
        while i < self.routes.len()
            invariant
                i <= self.routes.len(),
                vr == view_routes(self.routes@),
                vr == self@.routes,
                vr.len() == self.routes@.len(),
                forall|j: int| 0 <= j < self.routes@.len() ==> vr[j] == #[trigger] self.routes@[j]@,
                forall|j: int| 0 <= j < i ==> !spec_route_matches(#[trigger] vr[j], path@, method@),
            decreases self.routes.len() - i,
        {
            if self.routes[i].matches(path, method) {
                proof {
                    lemma_find_route_at(vr, path@, method@, i as int);
                }
                return Some(&self.routes[i]);
            }
            i = i + 1;
        }
        proof {
            lemma_find_route_none(vr, path@, method@);
        }
        None
    }

    /// Resolves the tri-axis policy for one route against the global defaults.
    pub fn get_effective_config(&self, route: &Route) -> (r: GlobalConfig)
        ensures
            r == spec_effective(self.global, route.config),
    {
        GlobalConfig {
            forward_on_error: match route.config.forward_on_error {
                Some(b) => b,
                None => self.global.forward_on_error,
            },
            add_error_header: match route.config.add_error_header {
                Some(b) => b,
                None => self.global.add_error_header,
            },
            add_validation_header: match route.config.add_validation_header {
                Some(b) => b,
                None => self.global.add_validation_header,
            },
        }
    }
}

// ---------------------------------------------------------------------------
// OpenAPI source normalisation
// ---------------------------------------------------------------------------
/// The options a source denotes: a blank operation id counts as absent.
pub open spec fn spec_to_options(s: OpenApiSourceV) -> OpenApiOptionsV {
    match s {
        OpenApiSourceV::Spec(p) => OpenApiOptionsV { spec: p, operation_id: None },
        OpenApiSourceV::Detailed(c) => OpenApiOptionsV {
            spec: c.spec,
            operation_id: match c.operation_id {
                Some(id) => if trim_ws(id).len() > 0 {
                    Some(id)
                } else {
                    None
                },
                None => None,
            },
        },
    }
}

impl OpenApiSource {
    pub fn to_options(&self) -> (r: OpenApiOptions)
        ensures
            r@ == spec_to_options(self@),
    {
        match self {
            OpenApiSource::Spec(path) => OpenApiOptions {
                spec: path.clone(),
                operation_id: None,
            },
            OpenApiSource::Detailed(cfg) => OpenApiOptions {
                spec: cfg.spec.clone(),
                operation_id: match &cfg.operation_id {
                    Some(id) => {
                        let trimmed = trim_str(id.as_str());
                        if trimmed.unicode_len() > 0 {
                            Some(id.clone())
                        } else {
                            None
                        }
                    },
                    None => None,
                },
            },
        }
    }
}

impl Route {
    /// The route's OpenAPI options, where it names a spec.
    pub fn openapi_options(&self) -> (r: Option<OpenApiOptions>)
        ensures
            match r {
                Some(o) => self@.openapi is Some && o@ == spec_to_options(self@.openapi->0),
                None => self@.openapi is None,
            },
    {
        match &self.openapi {
            Some(src) => Some(src.to_options()),
            None => None,
        }
    }
}

// ---------------------------------------------------------------------------
// Configuration validation
// ---------------------------------------------------------------------------
/// A method name the configuration accepts, compared after upper-casing.
pub open spec fn is_valid_method_name(m: Seq<char>) -> bool {
    ||| to_upper(m) == "GET"@
    ||| to_upper(m) == "POST"@
    ||| to_upper(m) == "PUT"@
    ||| to_upper(m) == "DELETE"@
    ||| to_upper(m) == "PATCH"@
    ||| to_upper(m) == "HEAD"@
    ||| to_upper(m) == "OPTIONS"@
    ||| to_upper(m) == "CONNECT"@
    ||| to_upper(m) == "TRACE"@
}

fn is_valid_method_exec(m: &str) -> (r: bool)
    ensures
        r == is_valid_method_name(m@),
{
    let u = crate::strutil::ascii_upper(m);
    u == "GET".to_owned() || u == "POST".to_owned() || u == "PUT".to_owned() || u
        == "DELETE".to_owned() || u == "PATCH".to_owned() || u == "HEAD".to_owned() || u
        == "OPTIONS".to_owned() || u == "CONNECT".to_owned() || u == "TRACE".to_owned()
}

fn vec_contains_string(v: &Vec<String>, s: &str) -> (r: bool)
    ensures
        r == v.deep_view().contains(s@),
{
    let ghost dv = v.deep_view();
    let owned = s.to_owned();
    let mut i: usize = 0;
    while i < v.len()
        invariant
            i <= v.len(),
            owned@ == s@,
            dv == v.deep_view(),
            dv.len() == v@.len(),
            forall|j: int| 0 <= j < i ==> dv[j] != s@,
        decreases v.len() - i,
    {
        proof {
            assert(dv[i as int] == v@[i as int]@);
        }
        if v[i] == owned {
            proof {
                assert(dv[i as int] == s@);
            }
            return true;
        }
        i = i + 1;
    }
    proof {
        assert(!dv.contains(s@));
    }
    false
}

/// What validating one route yields; a spec path is treated as existing
/// exactly when it is not among the missing paths the caller found.
pub open spec fn spec_route_validate(r: RouteV, missing: Seq<Seq<char>>) -> Result<(), Seq<char>> {
    if r.upstream.len() == 0 {
        Err("upstream cannot be empty"@)
    } else if !is_valid_method_name(r.method) {
        Err("Invalid HTTP method: "@ + r.method)
    } else if r.schema is Some && r.openapi is Some {
        Err("Cannot specify both 'schema' and 'openapi' on a route"@)
    } else {
        match r.openapi {
            Some(src) => {
                let o = spec_to_options(src);
                if o.spec.len() == 0 {
                    Err("OpenAPI spec path cannot be empty"@)
                } else if missing.contains(o.spec) {
                    Err("OpenAPI spec does not exist: "@ + o.spec)
                } else {
                    match o.operation_id {
                        Some(id) => if trim_ws(id).len() == 0 {
                            Err("OpenAPI operation_id cannot be empty"@)
                        } else {
                            Ok(())
                        },
                        None => Ok(()),
                    }
                }
            },
            None => Ok(()),
        }
    }
}

impl Route {
    /// Validates one route: a non-empty upstream, a known method, at most one
    /// validation source, and an OpenAPI spec that is not known to be missing.
    pub fn validate(&self, missing_specs: &Vec<String>) -> (r: Result<(), String>)
        ensures
            match r {
                Ok(_) => spec_route_validate(self@, missing_specs.deep_view()) is Ok,
                Err(e) => spec_route_validate(self@, missing_specs.deep_view()) == Err::<
                    (),
                    Seq<char>,
                >(e@),
            },
    {
        if self.upstream.as_str().unicode_len() == 0 {
            return Err("upstream cannot be empty".to_owned());
        }
        if !is_valid_method_exec(self.method.as_str()) {
            let mut m = "Invalid HTTP method: ".to_owned();
            m.append(self.method.as_str());
            return Err(m);
        }
        let has_schema = match &self.schema {
            Some(_) => true,
            None => false,
        };
        let openapi = match &self.openapi {
            Some(src) => Some(src.to_options()),
            None => None,
        };
        if has_schema && matches!(openapi, Some(_)) {
            return Err("Cannot specify both 'schema' and 'openapi' on a route".to_owned());
        }
        match openapi {
            Some(o) => {
                if o.spec.as_str().unicode_len() == 0 {
                    return Err("OpenAPI spec path cannot be empty".to_owned());
                }
                if vec_contains_string(missing_specs, o.spec.as_str()) {
                    let mut m = "OpenAPI spec does not exist: ".to_owned();
                    m.append(o.spec.as_str());
                    return Err(m);
                }
                match &o.operation_id {
                    Some(id) => {
                        let trimmed = trim_str(id.as_str());
                        if trimmed.as_str().unicode_len() == 0 {
                            return Err("OpenAPI operation_id cannot be empty".to_owned());
                        }
                        Ok(())
                    },
                    None => Ok(()),
                }
            },
            None => Ok(()),
        }
    }
}

/// The first invalid route's error, prefixed with its position.
pub open spec fn first_route_error(
    routes: Seq<RouteV>,
    missing: Seq<Seq<char>>,
    idx: nat,
) -> Result<(), Seq<char>>
    decreases routes.len(),
{
    if routes.len() == 0 {
        Ok(())
    } else {
        match spec_route_validate(routes[0], missing) {
            Err(e) => Err("Route "@ + crate::strutil::u64_string(idx) + ": "@ + e),
            Ok(_) => first_route_error(routes.drop_first(), missing, idx + 1),
        }
    }
}

/// What validating the whole configuration yields.
pub open spec fn spec_config_validate(c: ConfigV, missing: Seq<Seq<char>>) -> Result<
    (),
    Seq<char>,
> {
    if c.routes.len() == 0 {
        Err("Config must have at least one route"@)
    } else {
        first_route_error(c.routes, missing, 0)
    }
}

impl Config {
    /// Validates the configuration: at least one route, and every route valid.
    /// `missing_specs` names the OpenAPI spec paths the caller found absent.
    pub fn validate(&self, missing_specs: &Vec<String>) -> (r: Result<(), String>)
        ensures
            match r {
                Ok(_) => spec_config_validate(self@, missing_specs.deep_view()) is Ok,
                Err(e) => spec_config_validate(self@, missing_specs.deep_view()) == Err::<
                    (),
                    Seq<char>,
                >(e@),
            },
    {
        if self.routes.len() == 0 {
            return Err("Config must have at least one route".to_owned());
        }
        proof {
            lemma_view_routes(self.routes@);
        }
        let ghost vr = self@.routes;
        proof {
            assert(vr.subrange(0, vr.len() as int) =~= vr);
        }
        let mut i: usize = 0;
        while i < self.routes.len()
            invariant
                i <= self.routes.len(),
                vr == view_routes(self.routes@),
                vr == self@.routes,
                vr.len() == self.routes@.len(),
                i <= u64::MAX,
                forall|j: int| 0 <= j < self.routes@.len() ==> vr[j] == #[trigger] self.routes@[j]@,
                first_route_error(vr, missing_specs.deep_view(), 0) == first_route_error(
                    vr.subrange(i as int, vr.len() as int),
                    missing_specs.deep_view(),
                    i as nat,
                ),
            decreases self.routes.len() - i,
        {
            let ghost rest = vr.subrange(i as int, vr.len() as int);
            proof {
                assert(rest[0] == vr[i as int]);
                assert(rest.drop_first() =~= vr.subrange(i + 1 as int, vr.len() as int));
            }
            match self.routes[i].validate(missing_specs) {
                Err(e) => {
                    let mut m = "Route ".to_owned();
                    let num = crate::strutil::u64_to_string(i as u64);
                    m.append(num.as_str());
                    m.append(": ");
                    m.append(e.as_str());
                    return Err(m);
                },
                Ok(_) => {},
            }
            i = i + 1;
        }
        proof {
            assert(vr.subrange(vr.len() as int, vr.len() as int) =~= Seq::<RouteV>::empty());
        }
        Ok(())
    }

    /// The OpenAPI spec paths the configuration names, for the caller to check
    /// for existence.
    pub fn openapi_spec_paths(&self) -> (r: Vec<String>)
        ensures
            r.deep_view().len() == spec_openapi_paths(self@.routes).len(),
            r.deep_view() == spec_openapi_paths(self@.routes),
    {
        let mut out: Vec<String> = Vec::new();
        proof {
            lemma_view_routes(self.routes@);
            assert(out.deep_view() =~= Seq::<Seq<char>>::empty());
            assert(view_routes(self.routes@).subrange(0, self.routes@.len() as int) =~= view_routes(
                self.routes@,
            ));
        }
        let ghost vr = self@.routes;
        let mut i: usize = 0;
        while i < self.routes.len()
            invariant
                i <= self.routes.len(),
                vr == view_routes(self.routes@),
                vr.len() == self.routes@.len(),
                forall|j: int| 0 <= j < self.routes@.len() ==> vr[j] == #[trigger] self.routes@[j]@,
                out.deep_view() + spec_openapi_paths(vr.subrange(i as int, vr.len() as int))
                    =~= spec_openapi_paths(vr),
            decreases self.routes.len() - i,
        {
            let ghost rest = vr.subrange(i as int, vr.len() as int);
            proof {
                assert(rest[0] == vr[i as int]);
                assert(rest.drop_first() =~= vr.subrange(i + 1 as int, vr.len() as int));
            }
            let ghost before = out.deep_view();
            match &self.routes[i].openapi {
                Some(src) => {
                    let o = src.to_options();
                    proof {
                        assert(vr[i as int] == self.routes@[i as int]@);
                        assert(vr[i as int].openapi == Some(src@));
                        assert(o@.spec == spec_to_options(vr[i as int].openapi->0).spec);
                    }
                    out.push(o.spec);
                    proof {
                        assert forall|j: int|
                            0 <= j < out.deep_view().len() implies out.deep_view()[j]
                            == before.push(spec_to_options(vr[i as int].openapi->0).spec)[j] by {
                            assert(out.deep_view()[j] == out@[j]@);
                        }
                        assert(out.deep_view() =~= before.push(
                            spec_to_options(vr[i as int].openapi->0).spec,
                        ));
                        assert(before.push(spec_to_options(vr[i as int].openapi->0).spec)
                            + spec_openapi_paths(rest.drop_first()) =~= before + spec_openapi_paths(
                            rest,
                        ));
                    }
                },
                None => {
                    proof {
                        assert(vr[i as int] == self.routes@[i as int]@);
                        assert(vr[i as int].openapi is None);
                    }
                },
            }
            i = i + 1;
        }
        proof {
            assert(vr.subrange(vr.len() as int, vr.len() as int) =~= Seq::<RouteV>::empty());
            assert(out.deep_view() + Seq::<Seq<char>>::empty() =~= out.deep_view());
        }
        out
    }
}

/// The spec paths of the routes that name an OpenAPI source, in order.
pub open spec fn spec_openapi_paths(routes: Seq<RouteV>) -> Seq<Seq<char>>
    decreases routes.len(),
{
    if routes.len() == 0 {
        Seq::<Seq<char>>::empty()
    } else {
        match routes[0].openapi {
            Some(src) => seq![spec_to_options(src).spec] + spec_openapi_paths(routes.drop_first()),
            None => spec_openapi_paths(routes.drop_first()),
        }
    }
}

// ---------------------------------------------------------------------------
// Decoding a configuration from a parsed YAML document
// ---------------------------------------------------------------------------
/// An optional boolean member: absent or null is nothing, anything else but a
/// boolean is an error.
pub open spec fn decode_bool_opt(
    fields: Seq<(Seq<char>, JsonV)>,
    key: Seq<char>,
) -> Result<Option<bool>, Seq<char>> {
    match obj_first(fields, key) {
        None => Ok(None),
        Some(JsonV::Null) => Ok(None),
        Some(JsonV::Bool(b)) => Ok(Some(b)),
        Some(_) => Err("config: '"@ + key + "' must be a boolean"@),
    }
}

/// A defaulted boolean member of `global`: absent is `true`.
pub open spec fn decode_global_flag(
    fields: Seq<(Seq<char>, JsonV)>,
    key: Seq<char>,
) -> Result<bool, Seq<char>> {
    match obj_first(fields, key) {
        None => Ok(true),
        Some(JsonV::Bool(b)) => Ok(b),
        Some(_) => Err("config: '"@ + key + "' must be a boolean"@),
    }
}

/// A required string member.
pub open spec fn decode_string_req(
    fields: Seq<(Seq<char>, JsonV)>,
    key: Seq<char>,
) -> Result<Seq<char>, Seq<char>> {
    match obj_first(fields, key) {
        Some(JsonV::Str(s)) => Ok(s),
        _ => Err("config: route '"@ + key + "' must be a string"@),
    }
}

/// An optional string member: absent or null is nothing.
pub open spec fn decode_string_opt(
    fields: Seq<(Seq<char>, JsonV)>,
    key: Seq<char>,
) -> Result<Option<Seq<char>>, Seq<char>> {
    match obj_first(fields, key) {
        None => Ok(None),
        Some(JsonV::Null) => Ok(None),
        Some(JsonV::Str(s)) => Ok(Some(s)),
        Some(_) => Err("config: '"@ + key + "' must be a string"@),
    }
}

/// A route's `openapi` member: a bare spec path, or a mapping with `spec` and
/// an optional `operation_id`.
pub open spec fn decode_openapi_source(v: JsonV) -> Result<OpenApiSourceV, Seq<char>> {
    match v {
        JsonV::Str(s) => Ok(OpenApiSourceV::Spec(s)),
        JsonV::Object(of) => match obj_first(of, "spec"@) {
            Some(JsonV::Str(sp)) => match decode_string_opt(of, "operation_id"@) {
                Ok(oid) => Ok(
                    OpenApiSourceV::Detailed(
                        OpenApiRouteConfigV { spec: sp, operation_id: oid },
                    ),
                ),
                Err(e) => Err(e),
            },
            _ => Err("config: 'openapi.spec' must be a string"@),
        },
        _ => Err("config: 'openapi' must be a path or a mapping"@),
    }
}

/// A route's partial policy from its `config` member.
pub open spec fn decode_route_config(v: JsonV) -> Result<RouteConfig, Seq<char>> {
    match v {
        JsonV::Object(cf) => match decode_bool_opt(cf, "forward_on_error"@) {
            Err(e) => Err(e),
            Ok(f) => match decode_bool_opt(cf, "add_error_header"@) {
                Err(e) => Err(e),
                Ok(a) => match decode_bool_opt(cf, "add_validation_header"@) {
                    Err(e) => Err(e),
                    Ok(h) => Ok(
                        RouteConfig {
                            forward_on_error: f,
                            add_error_header: a,
                            add_validation_header: h,
                        },
                    ),
                },
            },
        },
        _ => Err("config: 'config' must be a mapping"@),
    }
}

/// One route entry.
pub open spec fn decode_route(v: JsonV) -> Result<RouteV, Seq<char>> {
    match v {
        JsonV::Object(f) => match decode_string_req(f, "path"@) {
            Err(e) => Err(e),
            Ok(path) => match decode_string_req(f, "method"@) {
                Err(e) => Err(e),
                Ok(method) => match decode_string_req(f, "upstream"@) {
                    Err(e) => Err(e),
                    Ok(upstream) => match decode_string_opt(f, "schema"@) {
                        Err(e) => Err(e),
                        Ok(schema) => {
                            let openapi_r = match obj_first(f, "openapi"@) {
                                None => Ok(None),
                                Some(JsonV::Null) => Ok(None),
                                Some(ov) => match decode_openapi_source(ov) {
                                    Ok(src) => Ok(Some(src)),
                                    Err(e) => Err(e),
                                },
                            };
                            match openapi_r {
                                Err(e) => Err(e),
                                Ok(openapi) => {
                                    let config_r = match obj_first(f, "config"@) {
                                        None => Ok(
                                            RouteConfig {
                                                forward_on_error: None,
                                                add_error_header: None,
                                                add_validation_header: None,
                                            },
                                        ),
                                        Some(JsonV::Null) => Ok(
                                            RouteConfig {
                                                forward_on_error: None,
                                                add_error_header: None,
                                                add_validation_header: None,
                                            },
                                        ),
                                        Some(cv) => decode_route_config(cv),
                                    };
                                    match config_r {
                                        Err(e) => Err(e),
                                        Ok(config) => Ok(
                                            RouteV {
                                                path,
                                                method,
                                                schema,
                                                openapi,
                                                upstream,
                                                config,
                                            },
                                        ),
                                    }
                                },
                            }
                        },
                    },
                },
            },
        },
        _ => Err("config: a route must be a mapping"@),
    }
}

pub open spec fn decode_routes(items: Seq<JsonV>) -> Result<Seq<RouteV>, Seq<char>>
    decreases items.len(),
{
    if items.len() == 0 {
        Ok(Seq::<RouteV>::empty())
    } else {
        match decode_route(items[0]) {
            Err(e) => Err(e),
            Ok(h) => match decode_routes(items.drop_first()) {
                Err(e) => Err(e),
                Ok(t) => Ok(seq![h] + t),
            },
        }
    }
}

/// The global policy from the document's `global` member.
pub open spec fn decode_global(fields: Seq<(Seq<char>, JsonV)>) -> Result<
    GlobalConfig,
    Seq<char>,
> {
    match obj_first(fields, "global"@) {
        None => Ok(
            GlobalConfig {
                forward_on_error: true,
                add_error_header: true,
                add_validation_header: true,
            },
        ),
        Some(JsonV::Null) => Ok(
            GlobalConfig {
                forward_on_error: true,
                add_error_header: true,
                add_validation_header: true,
            },
        ),
        Some(JsonV::Object(gf)) => match decode_global_flag(gf, "forward_on_error"@) {
            Err(e) => Err(e),
            Ok(f) => match decode_global_flag(gf, "add_error_header"@) {
                Err(e) => Err(e),
                Ok(a) => match decode_global_flag(gf, "add_validation_header"@) {
                    Err(e) => Err(e),
                    Ok(h) => Ok(
                        GlobalConfig {
                            forward_on_error: f,
                            add_error_header: a,
                            add_validation_header: h,
                        },
                    ),
                },
            },
        },
        Some(_) => Err("config: 'global' must be a mapping"@),
    }
}

/// The whole configuration from a parsed document.
pub open spec fn spec_decode_config(doc: JsonV) -> Result<ConfigV, Seq<char>> {
    match doc {
        JsonV::Object(f) => match obj_first(f, "routes"@) {
            Some(JsonV::Array(items)) => match decode_routes(items) {
                Err(e) => Err(e),
                Ok(routes) => match decode_global(f) {
                    Err(e) => Err(e),
                    Ok(global) => Ok(ConfigV { routes, global }),
                },
            },
            Some(_) => Err("config: 'routes' must be a sequence"@),
            None => Err("config: 'routes' is required"@),
        },
        _ => Err("config: the document must be a mapping"@),
    }
}

fn decode_bool_opt_exec(v: &JsonValue, key: &str) -> (r: Result<Option<bool>, String>)
    requires
        v@ is Object,
    ensures
        match r {
            Ok(b) => decode_bool_opt(v@->Object_0, key@) == Ok::<Option<bool>, Seq<char>>(b),
            Err(e) => decode_bool_opt(v@->Object_0, key@) == Err::<Option<bool>, Seq<char>>(e@),
        },
{
    match v.get(key) {
        None => Ok(None),
        Some(JsonValue::Null) => Ok(None),
        Some(b) => match b.as_bool() {
            Some(x) => Ok(Some(x)),
            None => {
                let mut m = "config: '".to_owned();
                m.append(key);
                m.append("' must be a boolean");
                Err(m)
            },
        },
    }
}

fn decode_global_flag_exec(v: &JsonValue, key: &str) -> (r: Result<bool, String>)
    requires
        v@ is Object,
    ensures
        match r {
            Ok(b) => decode_global_flag(v@->Object_0, key@) == Ok::<bool, Seq<char>>(b),
            Err(e) => decode_global_flag(v@->Object_0, key@) == Err::<bool, Seq<char>>(e@),
        },
{
    match v.get(key) {
        None => Ok(true),
        Some(b) => match b.as_bool() {
            Some(x) => Ok(x),
            None => {
                let mut m = "config: '".to_owned();
                m.append(key);
                m.append("' must be a boolean");
                Err(m)
            },
        },
    }
}

fn decode_string_req_exec(v: &JsonValue, key: &str) -> (r: Result<String, String>)
    requires
        v@ is Object,
    ensures
        match r {
            Ok(s) => decode_string_req(v@->Object_0, key@) == Ok::<Seq<char>, Seq<char>>(s@),
            Err(e) => decode_string_req(v@->Object_0, key@) == Err::<Seq<char>, Seq<char>>(e@),
        },
{
    match v.get(key) {
        Some(x) => match x.as_str() {
            Some(s) => Ok(s.clone()),
            None => {
                let mut m = "config: route '".to_owned();
                m.append(key);
                m.append("' must be a string");
                Err(m)
            },
        },
        None => {
            let mut m = "config: route '".to_owned();
            m.append(key);
            m.append("' must be a string");
            Err(m)
        },
    }
}

fn decode_string_opt_exec(v: &JsonValue, key: &str) -> (r: Result<Option<String>, String>)
    requires
        v@ is Object,
    ensures
        match r {
            Ok(Some(s)) => decode_string_opt(v@->Object_0, key@) == Ok::<
                Option<Seq<char>>,
                Seq<char>,
            >(Some(s@)),
            Ok(None) => decode_string_opt(v@->Object_0, key@) == Ok::<
                Option<Seq<char>>,
                Seq<char>,
            >(None),
            Err(e) => decode_string_opt(v@->Object_0, key@) == Err::<
                Option<Seq<char>>,
                Seq<char>,
            >(e@),
        },
{
    match v.get(key) {
        None => Ok(None),
        Some(JsonValue::Null) => Ok(None),
        Some(x) => match x.as_str() {
            Some(s) => Ok(Some(s.clone())),
            None => {
                let mut m = "config: '".to_owned();
                m.append(key);
                m.append("' must be a string");
                Err(m)
            },
        },
    }
}

fn decode_route_exec(v: &JsonValue) -> (r: Result<Route, String>)
    ensures
        match r {
            Ok(rt) => decode_route(v@) == Ok::<RouteV, Seq<char>>(rt@),
            Err(e) => decode_route(v@) == Err::<RouteV, Seq<char>>(e@),
        },
{
    if !v.is_object() {
        return Err("config: a route must be a mapping".to_owned());
    }
    let path = match decode_string_req_exec(v, "path") {
        Ok(s) => s,
        Err(e) => {
            return Err(e);
        },
    };
    let method = match decode_string_req_exec(v, "method") {
        Ok(s) => s,
        Err(e) => {
            return Err(e);
        },
    };
    let upstream = match decode_string_req_exec(v, "upstream") {
        Ok(s) => s,
        Err(e) => {
            return Err(e);
        },
    };
    let schema = match decode_string_opt_exec(v, "schema") {
        Ok(s) => s,
        Err(e) => {
            return Err(e);
        },
    };
    let openapi: Option<OpenApiSource> = match v.get("openapi") {
        None => None,
        Some(JsonValue::Null) => None,
        Some(ov) => match decode_openapi_source_exec(ov) {
            Ok(src) => Some(src),
            Err(e) => {
                return Err(e);
            },
        },
    };
    let config: RouteConfig = match v.get("config") {
        None => RouteConfig {
            forward_on_error: None,
            add_error_header: None,
            add_validation_header: None,
        },
        Some(JsonValue::Null) => RouteConfig {
            forward_on_error: None,
            add_error_header: None,
            add_validation_header: None,
        },
        Some(cv) => {
            if !cv.is_object() {
                return Err("config: 'config' must be a mapping".to_owned());
            }
            let f = match decode_bool_opt_exec(cv, "forward_on_error") {
                Ok(x) => x,
                Err(e) => {
                    return Err(e);
                },
            };
            let a = match decode_bool_opt_exec(cv, "add_error_header") {
                Ok(x) => x,
                Err(e) => {
                    return Err(e);
                },
            };
            let h = match decode_bool_opt_exec(cv, "add_validation_header") {
                Ok(x) => x,
                Err(e) => {
                    return Err(e);
                },
            };
            RouteConfig { forward_on_error: f, add_error_header: a, add_validation_header: h }
        },
    };
    Ok(Route { path, method, schema, openapi, upstream, config })
}

fn decode_openapi_source_exec(v: &JsonValue) -> (r: Result<OpenApiSource, String>)
    ensures
        match r {
            Ok(src) => decode_openapi_source(v@) == Ok::<OpenApiSourceV, Seq<char>>(src@),
            Err(e) => decode_openapi_source(v@) == Err::<OpenApiSourceV, Seq<char>>(e@),
        },
{
    match v {
        JsonValue::Str(s) => Ok(OpenApiSource::Spec(s.clone())),
        JsonValue::Object(_) => {
            let spec = match v.get("spec") {
                Some(sv) => match sv.as_str() {
                    Some(s) => s.clone(),
                    None => {
                        return Err("config: 'openapi.spec' must be a string".to_owned());
                    },
                },
                None => {
                    return Err("config: 'openapi.spec' must be a string".to_owned());
                },
            };
            let operation_id = match decode_string_opt_exec(v, "operation_id") {
                Ok(o) => o,
                Err(e) => {
                    return Err(e);
                },
            };
            Ok(OpenApiSource::Detailed(OpenApiRouteConfig { spec, operation_id }))
        },
        _ => Err("config: 'openapi' must be a path or a mapping".to_owned()),
    }
}

fn decode_routes_exec(items: &Vec<JsonValue>, i: usize) -> (r: Result<Vec<Route>, String>)
    requires
        i <= items.len(),
        crate::json::view_list(items@).len() == items@.len(),
        forall|j: int|
            0 <= j < items@.len() ==> crate::json::view_list(items@)[j] == #[trigger] items@[j]@,
    ensures
        match r {
            Ok(rs) => decode_routes(
                crate::json::view_list(items@).subrange(i as int, items@.len() as int),
            ) == Ok::<Seq<RouteV>, Seq<char>>(view_routes(rs@)),
            Err(e) => decode_routes(
                crate::json::view_list(items@).subrange(i as int, items@.len() as int),
            ) == Err::<Seq<RouteV>, Seq<char>>(e@),
        },
    decreases items.len() - i,
{
    let ghost vl = crate::json::view_list(items@);
    let ghost rest = vl.subrange(i as int, items@.len() as int);
    if i == items.len() {
        let out: Vec<Route> = Vec::new();
        proof {
            assert(rest =~= Seq::<JsonV>::empty());
            assert(view_routes(out@) =~= Seq::<RouteV>::empty());
        }
        return Ok(out);
    }
    proof {
        assert(rest[0] == vl[i as int]);
        assert(rest[0] == items@[i as int]@);
        assert(rest.drop_first() =~= vl.subrange(i + 1 as int, items@.len() as int));
    }
    let head = match decode_route_exec(&items[i]) {
        Ok(rt) => rt,
        Err(e) => {
            return Err(e);
        },
    };
    let ghost headv = head@;
    match decode_routes_exec(items, i + 1) {
        Err(e) => Err(e),
        Ok(mut t) => {
            let ghost told = t@;
            let ghost tail = view_routes(t@);
            t.insert(0, head);
            proof {
                lemma_view_routes(told);
                assert(t@ =~= seq![t@[0]] + told);
                lemma_view_routes(t@);
                assert forall|j: int|
                    0 <= j < t@.len() implies view_routes(t@)[j] == (seq![headv] + tail)[j] by {
                    assert(view_routes(t@)[j] == t@[j]@);
                    if j > 0 {
                        assert(t@[j] == told[j - 1]);
                        assert(tail[j - 1] == told[j - 1]@);
                    }
                }
                assert(view_routes(t@) =~= seq![headv] + tail);
            }
            Ok(t)
        },
    }
}

impl Config {
    /// Decodes a configuration out of a parsed document.
    pub fn decode(doc: &JsonValue) -> (r: Result<Config, String>)
        ensures
            match r {
                Ok(c) => spec_decode_config(doc@) == Ok::<ConfigV, Seq<char>>(c@),
                Err(e) => spec_decode_config(doc@) == Err::<ConfigV, Seq<char>>(e@),
            },
    {
        if !doc.is_object() {
            return Err("config: the document must be a mapping".to_owned());
        }
        let routes = match doc.get("routes") {
            Some(rv) => match rv {
                JsonValue::Array(items) => {
                    proof {
                        crate::json::lemma_view_list(items@);
                        assert(crate::json::view_list(items@).subrange(
                            0,
                            items@.len() as int,
                        ) =~= crate::json::view_list(items@));
                    }
                    match decode_routes_exec(items, 0) {
                        Ok(rs) => rs,
                        Err(e) => {
                            return Err(e);
                        },
                    }
                },
                _ => {
                    return Err("config: 'routes' must be a sequence".to_owned());
                },
            },
            None => {
                return Err("config: 'routes' is required".to_owned());
            },
        };
        let global: GlobalConfig = match doc.get("global") {
            None => GlobalConfig {
                forward_on_error: true,
                add_error_header: true,
                add_validation_header: true,
            },
            Some(JsonValue::Null) => GlobalConfig {
                forward_on_error: true,
                add_error_header: true,
                add_validation_header: true,
            },
            Some(gv) => {
                if !gv.is_object() {
                    return Err("config: 'global' must be a mapping".to_owned());
                }
                let f = match decode_global_flag_exec(gv, "forward_on_error") {
                    Ok(x) => x,
                    Err(e) => {
                        return Err(e);
                    },
                };
                let a = match decode_global_flag_exec(gv, "add_error_header") {
                    Ok(x) => x,
                    Err(e) => {
                        return Err(e);
                    },
                };
                let h = match decode_global_flag_exec(gv, "add_validation_header") {
                    Ok(x) => x,
                    Err(e) => {
                        return Err(e);
                    },
                };
                GlobalConfig { forward_on_error: f, add_error_header: a, add_validation_header: h }
            },
        };
        Ok(Config { routes, global })
    }

    /// Decodes a configuration out of YAML text.
    pub fn from_yaml_str(text: &str) -> (r: Result<Config, String>)
        ensures
            match r {
                Ok(c) => crate::trusted::yaml_doc_of(text@) matches Ok(doc) && spec_decode_config(
                    doc,
                ) == Ok::<ConfigV, Seq<char>>(c@),
                Err(e) => (crate::trusted::yaml_doc_of(text@) matches Err(pe) && e@
                    == "Failed to parse config: "@ + pe) || (crate::trusted::yaml_doc_of(text@)
                    matches Ok(doc) && spec_decode_config(doc) == Err::<ConfigV, Seq<char>>(e@)),
            },
    {
        let doc = match crate::trusted::parse_yaml(text) {
            Ok(v) => v,
            Err(pe) => {
                let mut m = "Failed to parse config: ".to_owned();
                m.append(pe.as_str());
                return Err(m);
            },
        };
        Config::decode(&doc)
    }
}

} // verus!
