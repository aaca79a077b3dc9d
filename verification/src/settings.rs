//! What the user asked for, and the backend settings derived from it: the
//! server port of a monolith, and the port of every service of a
//! microservice project, with its conflicts.
use vstd::prelude::*;
use crate::catalog::{default_microservice_ports, default_ports, microservice_servers, module_servers, str_views};
use crate::error::ScaffoldError;
use crate::text::{copy_str, decimal, push_decimal, push_str, str_eq};

verus! {

/// The answers of the scaffolding form.
pub struct ScaffoldAnswers {
    pub project_name: String,
    pub display_name: String,
    pub output_dir: String,
    pub backend: String,
    pub jdk_version: String,
    pub group_id: String,
    pub artifact_id: String,
    pub version: String,
    pub base_package: String,
    pub modules: Vec<String>,
    pub frontends: Vec<String>,
    pub monolith_port: Option<u16>,
    pub gateway_port: Option<u16>,
    /// Ports chosen per module; a module without an entry keeps its default ports.
    pub microservice_ports: Vec<(String, Vec<u16>)>,
    pub super_admin_username: String,
    pub super_admin_password: String,
    pub pull_existing: bool,
    pub force: Option<bool>,
    pub tenant_enabled: bool,
    pub vben_variant: Option<String>,
}

/// A request to generate a project.
pub struct RunPayload {
    pub answers: ScaffoldAnswers,
    pub workspace: Option<String>,
    pub mirror: Option<String>,
    /// Download addresses chosen per template name.
    pub url_overrides: Vec<(String, String)>,
}

// ---------------------------------------------------------------------------
// Port maps
// ---------------------------------------------------------------------------
/// The views of a list of (module, ports) entries.
pub open spec fn port_map_view(v: Seq<(String, Vec<u16>)>) -> Seq<(Seq<char>, Seq<u16>)> {
    v.map_values(|e: (String, Vec<u16>)| (e.0@, e.1@))
}

/// The ports chosen for module `m`, if any.
pub open spec fn port_override(map: Seq<(Seq<char>, Seq<u16>)>, m: Seq<char>) -> Option<Seq<u16>>
    decreases map.len(),
{
    if map.len() == 0 {
        None
    } else if map[0].0 == m {
        Some(map[0].1)
    } else {
        port_override(map.drop_first(), m)
    }
}

/// The ports of module `m`: the chosen ones, else its defaults.
pub open spec fn module_ports(map: Seq<(Seq<char>, Seq<u16>)>, m: Seq<char>) -> Seq<u16> {
    match port_override(map, m) {
        Some(p) => p,
        None => default_ports(m),
    }
}

/// The ports of a module: the chosen ones, else its defaults.
pub fn ports_for_module(map: &Vec<(String, Vec<u16>)>, module: &str) -> (r: Vec<u16>)
    ensures
        r@ == module_ports(port_map_view(map@), module@),
{
    let ghost mv = port_map_view(map@);
    let mut i: usize = 0;
    assert(mv.subrange(0, mv.len() as int) =~= mv);
    while i < map.len()
        invariant
            mv == port_map_view(map@),
            i <= map.len(),
            port_override(mv, module@) == port_override(mv.subrange(i as int, mv.len() as int), module@),
        decreases map.len() - i,
    {
        let ghost rest = mv.subrange(i as int, mv.len() as int);
        assert(rest[0] == (map@[i as int].0@, map@[i as int].1@));
        if str_eq(map[i].0.as_str(), module) {
            return map[i].1.clone();
        }
        assert(rest.drop_first() =~= mv.subrange(i + 1, mv.len() as int));
        i += 1;
    }
    default_microservice_ports(module)
}

/// The owner recorded for `port`, if any.
pub open spec fn lookup_owner(used: Seq<(u16, Seq<char>)>, port: u16) -> Option<Seq<char>>
    decreases used.len(),
{
    if used.len() == 0 {
        None
    } else if used[0].0 == port {
        Some(used[0].1)
    } else {
        lookup_owner(used.drop_first(), port)
    }
}

/// The views of a list of (port, owner) entries.
pub open spec fn used_view(v: Seq<(u16, String)>) -> Seq<(u16, Seq<char>)> {
    v.map_values(|e: (u16, String)| (e.0, e.1@))
}

/// The owner already holding `port`.
fn find_owner(used: &Vec<(u16, String)>, port: u16) -> (r: Option<String>)
    ensures
        match lookup_owner(used_view(used@), port) {
            Some(o) => r matches Some(s) && s@ == o,
            None => r is None,
        },
{
    let ghost uv = used_view(used@);
    let mut i: usize = 0;
    assert(uv.subrange(0, uv.len() as int) =~= uv);
    while i < used.len()
        invariant
            uv == used_view(used@),
            i <= used.len(),
            lookup_owner(uv, port) == lookup_owner(uv.subrange(i as int, uv.len() as int), port),
        decreases used.len() - i,
    {
        let ghost rest = uv.subrange(i as int, uv.len() as int);
        assert(rest[0] == (used@[i as int].0, used@[i as int].1@));
        if used[i].0 == port {
            return Some(copy_str(used[i].1.as_str()));
        }
        assert(rest.drop_first() =~= uv.subrange(i + 1, uv.len() as int));
        i += 1;
    }
    None
}

// ---------------------------------------------------------------------------
// Microservice plan
// ---------------------------------------------------------------------------
/// One service whose port is set: its server directory (relative to the
/// backend root, written with `/`; the resources lie under
/// `src/main/resources` of it), its port, the name it is known by in
/// conflicts, and whether its tenant switch is set too.
pub struct ServicePort {
    pub server_dir: String,
    pub port: u16,
    pub owner: String,
    pub edit_tenant: bool,
}

impl View for ServicePort {
    type V = (Seq<char>, u16, Seq<char>, bool);

    open spec fn view(&self) -> Self::V {
        (self.server_dir@, self.port, self.owner@, self.edit_tenant)
    }
}

/// Why a microservice plan stops.
pub enum PlanFailure {
    /// A module's number of ports differs from its number of services.
    Mismatch(Seq<char>, nat, nat),
    /// A port was already given to the first owner when the second asked for it.
    Conflict(u16, Seq<char>, Seq<char>),
}

/// The error that stands for a plan failure.
pub open spec fn reports(e: ScaffoldError, f: PlanFailure) -> bool {
    match f {
        PlanFailure::Mismatch(m, expected, actual) => e matches ScaffoldError::PortCountMismatch {
            module,
            expected: x,
            actual: y,
        } && module@ == m && x == expected && y == actual,
        PlanFailure::Conflict(p, existing, owner) => e matches ScaffoldError::PortConflict {
            port,
            existing: x,
            owner: y,
        } && port == p && x@ == existing && y@ == owner,
    }
}

/// The server directory of server `s` of module `m`.
pub open spec fn module_server_dir(m: Seq<char>, s: Seq<char>) -> Seq<char> {
    "yudao-module-"@ + m + "/"@ + s
}

/// The name a service is known by: the module, indexed when it has several services.
pub open spec fn owner_name(m: Seq<char>, count: nat, k: nat) -> Seq<char> {
    if count == 1 {
        m
    } else {
        m + "["@ + decimal(k) + "]"@
    }
}

/// The services of module `m` from the `k`-th on: the ports in use, the
/// steps so far, and the failure that stops the plan, if any.
pub open spec fn plan_services(
    m: Seq<char>,
    servers: Seq<Seq<char>>,
    ports: Seq<u16>,
    k: int,
    used: Seq<(u16, Seq<char>)>,
    steps: Seq<(Seq<char>, u16, Seq<char>, bool)>,
) -> (Seq<(u16, Seq<char>)>, Seq<(Seq<char>, u16, Seq<char>, bool)>, Option<PlanFailure>)
    decreases servers.len() - k,
{
    if k < 0 || k >= servers.len() || k >= ports.len() {
        (used, steps, None)
    } else {
        let owner = owner_name(m, servers.len(), k as nat);
        match lookup_owner(used, ports[k]) {
            Some(existing) => (used, steps, Some(PlanFailure::Conflict(ports[k], existing, owner))),
            None => plan_services(
                m,
                servers,
                ports,
                k + 1,
                used.push((ports[k], owner)),
                steps.push((module_server_dir(m, servers[k]), ports[k], owner, true)),
            ),
        }
    }
}

/// The modules from the `i`-th on: the steps, and the failure that stops the plan, if any.
pub open spec fn plan_modules(
    mods: Seq<Seq<char>>,
    i: int,
    map: Seq<(Seq<char>, Seq<u16>)>,
    used: Seq<(u16, Seq<char>)>,
    steps: Seq<(Seq<char>, u16, Seq<char>, bool)>,
) -> (Seq<(Seq<char>, u16, Seq<char>, bool)>, Option<PlanFailure>)
    decreases mods.len() - i,
{
    if i < 0 || i >= mods.len() {
        (steps, None)
    } else {
        let m = mods[i];
        let servers = module_servers(m);
        let ports = module_ports(map, m);
        if servers.len() != ports.len() {
            (steps, Some(PlanFailure::Mismatch(m, servers.len(), ports.len())))
        } else {
            let r = plan_services(m, servers, ports, 0, used, steps);
            match r.2 {
                Some(f) => (r.1, Some(f)),
                None => plan_modules(mods, i + 1, map, r.0, r.1),
            }
        }
    }
}

/// The plan of a microservice project with gateway port `g`: the gateway
/// first, then every service of every selected module, in order.
pub open spec fn microservice_plan(
    mods: Seq<Seq<char>>,
    map: Seq<(Seq<char>, Seq<u16>)>,
    g: u16,
) -> (Seq<(Seq<char>, u16, Seq<char>, bool)>, Option<PlanFailure>) {
    plan_modules(mods, 0, map, seq![(g, "gateway"@)], seq![("yudao-gateway"@, g, "gateway"@, false)])
}

/// The ports of a microservice project: the steps to carry out in order,
/// and the error to report once they are done, if the plan stops early.
pub struct MicroservicePlan {
    pub steps: Vec<ServicePort>,
    pub failure: Option<ScaffoldError>,
}

/// The views of a list of steps.
pub open spec fn step_views(v: Seq<ServicePort>) -> Seq<(Seq<char>, u16, Seq<char>, bool)> {
    v.map_values(|s: ServicePort| s@)
}

/// The views of a list of strings.
pub open spec fn names_view(v: Seq<String>) -> Seq<Seq<char>> {
    v.map_values(|s: String| s@)
}

/// The plan matches the spec plan.
pub open spec fn plan_matches(
    p: MicroservicePlan,
    spec: (Seq<(Seq<char>, u16, Seq<char>, bool)>, Option<PlanFailure>),
) -> bool {
    &&& step_views(p.steps@) == spec.0
    &&& match spec.1 {
        None => p.failure is None,
        Some(f) => p.failure matches Some(e) && reports(e, f),
    }
}

/// The name of the `k`-th service of a module with `count` services.
fn owner_for(module: &str, count: usize, k: usize) -> (r: String)
    ensures
        r@ == owner_name(module@, count as nat, k as nat),
{
    let mut r = copy_str(module);
    if count != 1 {
        push_str(&mut r, "[");
        push_decimal(&mut r, k as u64);
        push_str(&mut r, "]");
    }
    r
}

/// Plans the ports of a microservice project: the gateway keeps the
/// gateway port, every service of every selected module gets the chosen or
/// default port of its module, and a port given twice stops the plan.
/// Without a gateway port there is no plan.
pub fn configure_microservice_settings(answers: &ScaffoldAnswers) -> (r: Result<
    MicroservicePlan,
    ScaffoldError,
>)
    ensures
        match answers.gateway_port {
            None => r matches Err(ScaffoldError::MissingGatewayPort),
            Some(g) => r matches Ok(p) && plan_matches(
                p,
                microservice_plan(
                    names_view(answers.modules@),
                    port_map_view(answers.microservice_ports@),
                    g,
                ),
            ),
        },
{
    let g = match answers.gateway_port {
        None => return Err(ScaffoldError::MissingGatewayPort),
        Some(g) => g,
    };
    let ghost mods = names_view(answers.modules@);
    let ghost map = port_map_view(answers.microservice_ports@);
    let mut used: Vec<(u16, String)> = Vec::new();
    used.push((g, copy_str("gateway")));
    let mut steps: Vec<ServicePort> = Vec::new();
    steps.push(
        ServicePort {
            server_dir: copy_str("yudao-gateway"),
            port: g,
            owner: copy_str("gateway"),
            edit_tenant: false,
        },
    );
    assert(used_view(used@) =~= seq![(g, "gateway"@)]);
    assert(step_views(steps@) =~= seq![("yudao-gateway"@, g, "gateway"@, false)]);
    let ghost goal = microservice_plan(mods, map, g);
    let mut i: usize = 0;
    while i < answers.modules.len()
        invariant
            answers.gateway_port == Some(g),
            mods == names_view(answers.modules@),
            map == port_map_view(answers.microservice_ports@),
            goal == microservice_plan(mods, map, g),
            i <= answers.modules.len(),
            goal == plan_modules(mods, i as int, map, used_view(used@), step_views(steps@)),
        decreases answers.modules.len() - i,
    {
        let module = answers.modules[i].as_str();
        assert(mods[i as int] == module@);
        let servers = microservice_servers(module);
        let ports = ports_for_module(&answers.microservice_ports, module);
        if servers.len() != ports.len() {
            let failure = ScaffoldError::PortCountMismatch {
                module: copy_str(module),
                expected: servers.len(),
                actual: ports.len(),
            };
            return Ok(MicroservicePlan { steps, failure: Some(failure) });
        }
        let ghost used0 = used_view(used@);
        let ghost steps0 = step_views(steps@);
        let ghost inner_goal = plan_services(
            module@,
            module_servers(module@),
            module_ports(map, module@),
            0,
            used_view(used@),
            step_views(steps@),
        );
        let mut k: usize = 0;
        while k < servers.len()
            invariant
                answers.gateway_port == Some(g),
                mods == names_view(answers.modules@),
                map == port_map_view(answers.microservice_ports@),
                goal == microservice_plan(mods, map, g),
                i < answers.modules.len(),
                mods[i as int] == module@,
                goal == plan_modules(mods, i as int, map, used0, steps0),
                inner_goal == plan_services(
                    module@,
                    module_servers(module@),
                    module_ports(map, module@),
                    0,
                    used0,
                    steps0,
                ),
                str_views(servers@) == module_servers(module@),
                ports@ == module_ports(map, module@),
                servers.len() == ports.len(),
                k <= servers.len(),
                inner_goal == plan_services(
                    module@,
                    module_servers(module@),
                    module_ports(map, module@),
                    k as int,
                    used_view(used@),
                    step_views(steps@),
                ),
            decreases servers.len() - k,
        {
            let owner = owner_for(module, servers.len(), k);
            assert(str_views(servers@).len() == servers@.len());
            match find_owner(&used, ports[k]) {
                Some(existing) => {
                    let failure = ScaffoldError::PortConflict { port: ports[k], existing, owner };
                    return Ok(MicroservicePlan { steps, failure: Some(failure) });
                },
                None => {},
            }
            let mut dir = copy_str("yudao-module-");
            push_str(&mut dir, module);
            push_str(&mut dir, "/");
            push_str(&mut dir, servers[k]);
            assert(str_views(servers@)[k as int] == servers@[k as int]@);
            let ghost old_used = used_view(used@);
            let ghost old_steps = step_views(steps@);
            used.push((ports[k], copy_str(owner.as_str())));
            steps.push(ServicePort { server_dir: dir, port: ports[k], owner, edit_tenant: true });
            assert(used_view(used@) =~= old_used.push((ports@[k as int], owner_name(module@, servers.len() as nat, k as nat))));
            assert(step_views(steps@) =~= old_steps.push(
                (
                    module_server_dir(module@, module_servers(module@)[k as int]),
                    ports@[k as int],
                    owner_name(module@, servers.len() as nat, k as nat),
                    true,
                ),
            ));
            k += 1;
        }
        assert(str_views(servers@).len() == servers@.len());
        i += 1;
    }
    Ok(MicroservicePlan { steps, failure: None })
}

// ---------------------------------------------------------------------------
// Backend settings
// ---------------------------------------------------------------------------
/// How the backend's settings are to be changed.
pub enum BackendSettings {
    /// A monolith: the server profiles get `port`; the tenant switch is set
    /// to `tenant_enabled`.
    Monolith { port: u16, tenant_enabled: bool },
    /// A microservice project: the ports of its services; every service
    /// also gets `tenant_enabled` where it has a tenant switch.
    Microservice { plan: MicroservicePlan, tenant_enabled: bool },
}

/// The server profiles of a monolith whose port is set, relative to the backend root.
pub fn monolith_port_profiles() -> (r: Vec<&'static str>)
    ensures
        str_views(r@) == seq![
            "yudao-server/src/main/resources/application-local.yaml"@,
            "yudao-server/src/main/resources/application-dev.yaml"@,
        ],
{
    let r = vec![
        "yudao-server/src/main/resources/application-local.yaml",
        "yudao-server/src/main/resources/application-dev.yaml",
    ];
    assert(str_views(r@) =~= seq![
        "yudao-server/src/main/resources/application-local.yaml"@,
        "yudao-server/src/main/resources/application-dev.yaml"@,
    ]);
    r
}

/// Decides how the backend's settings change: a monolith needs its port, a
/// microservice project is planned by `configure_microservice_settings`,
/// any other backend kind is refused.
pub fn configure_backend_settings(answers: &ScaffoldAnswers) -> (r: Result<
    BackendSettings,
    ScaffoldError,
>)
    ensures
        answers.backend@ == "monolith"@ ==> match answers.monolith_port {
            None => r matches Err(ScaffoldError::MissingMonolithPort),
            Some(p) => r matches Ok(BackendSettings::Monolith { port, tenant_enabled }) && port == p
                && tenant_enabled == answers.tenant_enabled,
        },
        answers.backend@ != "monolith"@ && answers.backend@ == "microservice"@ ==> match answers.gateway_port {
            None => r matches Err(ScaffoldError::MissingGatewayPort),
            Some(g) => r matches Ok(BackendSettings::Microservice { plan, tenant_enabled }) && plan_matches(
                plan,
                microservice_plan(
                    names_view(answers.modules@),
                    port_map_view(answers.microservice_ports@),
                    g,
                ),
            ) && tenant_enabled == answers.tenant_enabled,
        },
        answers.backend@ != "monolith"@ && answers.backend@ != "microservice"@ ==> (r matches Err(
            ScaffoldError::UnknownBackend(b),
        ) && b@ == answers.backend@),
{
    if str_eq(answers.backend.as_str(), "monolith") {
        match answers.monolith_port {
            None => Err(ScaffoldError::MissingMonolithPort),
            Some(port) => Ok(BackendSettings::Monolith { port, tenant_enabled: answers.tenant_enabled }),
        }
    } else if str_eq(answers.backend.as_str(), "microservice") {
        let plan = configure_microservice_settings(answers)?;
        Ok(BackendSettings::Microservice { plan, tenant_enabled: answers.tenant_enabled })
    } else {
        Err(ScaffoldError::UnknownBackend(copy_str(answers.backend.as_str())))
    }
}

} // verus!

verus! {

// ---------------------------------------------------------------------------
// Laws of the microservice plan
// ---------------------------------------------------------------------------
/// No two steps share a port.
pub open spec fn distinct_ports(steps: Seq<(Seq<char>, u16, Seq<char>, bool)>) -> bool {
    forall|a: int, b: int| 0 <= a < b < steps.len() ==> steps[a].1 != steps[b].1
}

/// The ports in use are exactly the ports of the steps, in order.
pub open spec fn tracks_steps(used: Seq<(u16, Seq<char>)>, steps: Seq<(Seq<char>, u16, Seq<char>, bool)>) -> bool {
    &&& used.len() == steps.len()
    &&& forall|i: int| 0 <= i < used.len() ==> #[trigger] used[i].0 == steps[i].1 && used[i].1 == steps[i].2
}

/// A port without an owner is held by no entry; an owner found holds the port.
proof fn lemma_lookup_owner(used: Seq<(u16, Seq<char>)>, port: u16)
    ensures
        match lookup_owner(used, port) {
            None => forall|i: int| 0 <= i < used.len() ==> #[trigger] used[i].0 != port,
            Some(o) => exists|i: int| 0 <= i < used.len() && #[trigger] used[i] == (port, o),
        },
    decreases used.len(),
{
    if used.len() > 0 && used[0].0 != port {
        lemma_lookup_owner(used.drop_first(), port);
        match lookup_owner(used, port) {
            None => {
                assert forall|i: int| 0 <= i < used.len() implies #[trigger] used[i].0 != port by {
                    if i > 0 {
                        assert(used[i] == used.drop_first()[i - 1]);
                    }
                }
            },
            Some(o) => {
                let j = choose|j: int| 0 <= j < used.drop_first().len() && #[trigger] used.drop_first()[j] == (port, o);
                assert(used[j + 1] == (port, o));
            },
        }
    } else if used.len() > 0 {
        assert(used[0] == (port, used[0].1));
    }
}

/// The services of one module keep the ports distinct, extend the steps,
/// and report a conflict only for a port an earlier step holds.
proof fn lemma_plan_services(
    m: Seq<char>,
    servers: Seq<Seq<char>>,
    ports: Seq<u16>,
    k: int,
    used: Seq<(u16, Seq<char>)>,
    steps: Seq<(Seq<char>, u16, Seq<char>, bool)>,
)
    requires
        0 <= k,
        tracks_steps(used, steps),
        distinct_ports(steps),
    ensures
        ({
            let r = plan_services(m, servers, ports, k, used, steps);
            &&& tracks_steps(r.0, r.1)
            &&& distinct_ports(r.1)
            &&& r.1.len() >= steps.len()
            &&& r.1.subrange(0, steps.len() as int) == steps
            &&& (r.2 matches Some(PlanFailure::Conflict(p, existing, owner)) ==> exists|i: int|
                0 <= i < r.1.len() && r.1[i].1 == p && r.1[i].2 == existing)
            &&& (r.2 matches Some(PlanFailure::Mismatch(a, b, c)) ==> false)
        }),
    decreases servers.len() - k,
{
    if k < servers.len() && k < ports.len() {
        let owner = owner_name(m, servers.len(), k as nat);
        lemma_lookup_owner(used, ports[k]);
        match lookup_owner(used, ports[k]) {
            Some(existing) => {
                let i = choose|i: int| 0 <= i < used.len() && #[trigger] used[i] == (ports[k], existing);
                assert(used[i].0 == steps[i].1 && used[i].1 == steps[i].2);
                assert(steps.subrange(0, steps.len() as int) =~= steps);
            },
            None => {
                let used2 = used.push((ports[k], owner));
                let steps2 = steps.push((module_server_dir(m, servers[k]), ports[k], owner, true));
                assert(tracks_steps(used2, steps2)) by {
                    assert forall|i: int| 0 <= i < used2.len() implies #[trigger] used2[i].0 == steps2[i].1
                        && used2[i].1 == steps2[i].2 by {
                        if i < used.len() {
                            assert(used[i].0 == steps[i].1 && used[i].1 == steps[i].2);
                        }
                    }
                }
                assert(distinct_ports(steps2)) by {
                    assert forall|a: int, b: int| 0 <= a < b < steps2.len() implies steps2[a].1 != steps2[b].1 by {
                        if b == steps.len() {
                            assert(used[a].0 != ports[k]);
                            assert(used[a].0 == steps[a].1);
                        }
                    }
                }
                lemma_plan_services(m, servers, ports, k + 1, used2, steps2);
                let r = plan_services(m, servers, ports, k + 1, used2, steps2);
                assert(r.1.subrange(0, steps.len() as int) =~= r.1.subrange(0, steps2.len() as int).subrange(
                    0,
                    steps.len() as int,
                ));
                assert(steps2.subrange(0, steps.len() as int) =~= steps);
            },
        }
    } else {
        assert(steps.subrange(0, steps.len() as int) =~= steps);
    }
}

/// The modules from the `i`-th on keep the ports distinct and extend the steps.
proof fn lemma_plan_modules(
    mods: Seq<Seq<char>>,
    i: int,
    map: Seq<(Seq<char>, Seq<u16>)>,
    used: Seq<(u16, Seq<char>)>,
    steps: Seq<(Seq<char>, u16, Seq<char>, bool)>,
)
    requires
        0 <= i,
        tracks_steps(used, steps),
        distinct_ports(steps),
    ensures
        ({
            let r = plan_modules(mods, i, map, used, steps);
            &&& distinct_ports(r.0)
            &&& r.0.len() >= steps.len()
            &&& r.0.subrange(0, steps.len() as int) == steps
            &&& (r.1 matches Some(PlanFailure::Conflict(p, existing, owner)) ==> exists|j: int|
                0 <= j < r.0.len() && r.0[j].1 == p && r.0[j].2 == existing)
        }),
    decreases mods.len() - i,
{
    if i < mods.len() {
        let m = mods[i];
        let servers = module_servers(m);
        let ports = module_ports(map, m);
        if servers.len() != ports.len() {
            assert(steps.subrange(0, steps.len() as int) =~= steps);
        } else {
            lemma_plan_services(m, servers, ports, 0, used, steps);
            let r = plan_services(m, servers, ports, 0, used, steps);
            if r.2 is None {
                lemma_plan_modules(mods, i + 1, map, r.0, r.1);
                let q = plan_modules(mods, i + 1, map, r.0, r.1);
                assert(q.0.subrange(0, steps.len() as int) =~= q.0.subrange(0, r.1.len() as int).subrange(
                    0,
                    steps.len() as int,
                ));
            }
        }
    } else {
        assert(steps.subrange(0, steps.len() as int) =~= steps);
    }
}

/// The ports a microservice plan sets are pairwise distinct; its first step
/// gives the gateway the gateway port; and a conflict it reports names a
/// port and an owner that an earlier step of the plan holds.
pub proof fn lemma_microservice_plan_ports_distinct(
    mods: Seq<Seq<char>>,
    map: Seq<(Seq<char>, Seq<u16>)>,
    g: u16,
)
    ensures
        ({
            let r = microservice_plan(mods, map, g);
            &&& distinct_ports(r.0)
            &&& r.0.len() >= 1
            &&& r.0[0] == ("yudao-gateway"@, g, "gateway"@, false)
            &&& (r.1 matches Some(PlanFailure::Conflict(p, existing, owner)) ==> exists|j: int|
                0 <= j < r.0.len() && r.0[j].1 == p && r.0[j].2 == existing)
        }),
{
    let used = seq![(g, "gateway"@)];
    let steps = seq![("yudao-gateway"@, g, "gateway"@, false)];
    assert(tracks_steps(used, steps));
    lemma_plan_modules(mods, 0, map, used, steps);
    let r = microservice_plan(mods, map, g);
    assert(r.0[0] == r.0.subrange(0, 1)[0]);
}

} // verus!

verus! {

/// The ports the selected modules ask for, from the `i`-th module on, in
/// order: each module's chosen or default ports.
pub open spec fn requested_ports(mods: Seq<Seq<char>>, i: int, map: Seq<(Seq<char>, Seq<u16>)>) -> Seq<u16>
    decreases mods.len() - i,
{
    if i < 0 || i >= mods.len() {
        seq![]
    } else {
        module_ports(map, mods[i]) + requested_ports(mods, i + 1, map)
    }
}

/// No port occurs twice.
pub open spec fn no_repeated_port(s: Seq<u16>) -> bool {
    forall|a: int, b: int| 0 <= a < b < s.len() ==> s[a] != s[b]
}

/// Every module from the `i`-th on has as many ports as services.
pub open spec fn port_counts_match(mods: Seq<Seq<char>>, i: int, map: Seq<(Seq<char>, Seq<u16>)>) -> bool {
    forall|k: int| i <= k < mods.len() ==> module_servers(#[trigger] mods[k]).len() == module_ports(map, mods[k]).len()
}

/// `p` is held by an entry of `used`.
pub open spec fn holds_port(used: Seq<(u16, Seq<char>)>, p: u16) -> bool {
    exists|t: int| 0 <= t < used.len() && #[trigger] used[t].0 == p
}

/// One module's services, with ports that repeat neither each other nor a
/// port in use, meet no conflict; afterwards only those ports are added.
proof fn lemma_plan_services_no_conflict(
    m: Seq<char>,
    servers: Seq<Seq<char>>,
    ports: Seq<u16>,
    k: int,
    used: Seq<(u16, Seq<char>)>,
    steps: Seq<(Seq<char>, u16, Seq<char>, bool)>,
)
    requires
        0 <= k <= ports.len(),
        servers.len() == ports.len(),
        forall|a: int, b: int| k <= a < b < ports.len() ==> ports[a] != ports[b],
        forall|j: int| k <= j < ports.len() ==> !holds_port(used, #[trigger] ports[j]),
    ensures
        ({
            let r = plan_services(m, servers, ports, k, used, steps);
            &&& r.2 is None
            &&& forall|p: u16| holds_port(r.0, p) ==> holds_port(used, p) || exists|j: int|
                k <= j < ports.len() && #[trigger] ports[j] == p
        }),
    decreases servers.len() - k,
{
    if k < ports.len() {
        let owner = owner_name(m, servers.len(), k as nat);
        lemma_lookup_owner(used, ports[k]);
        if lookup_owner(used, ports[k]) is Some {
            let o = lookup_owner(used, ports[k])->0;
            let t = choose|t: int| 0 <= t < used.len() && #[trigger] used[t] == (ports[k], o);
            assert(used[t].0 == ports[k]);
            assert(false);
        }
        let used2 = used.push((ports[k], owner));
        let steps2 = steps.push((module_server_dir(m, servers[k]), ports[k], owner, true));
        assert forall|j: int| k + 1 <= j < ports.len() implies !holds_port(used2, #[trigger] ports[j]) by {
            if holds_port(used2, ports[j]) {
                let t = choose|t: int| 0 <= t < used2.len() && #[trigger] used2[t].0 == ports[j];
                if t < used.len() {
                    assert(used[t].0 == ports[j]);
                } else {
                    assert(ports[k] != ports[j]);
                }
            }
        }
        lemma_plan_services_no_conflict(m, servers, ports, k + 1, used2, steps2);
        let r = plan_services(m, servers, ports, k + 1, used2, steps2);
        assert forall|p: u16| holds_port(r.0, p) implies holds_port(used, p) || exists|j: int|
            k <= j < ports.len() && #[trigger] ports[j] == p by {
            if holds_port(used2, p) && !holds_port(used, p) {
                let t = choose|t: int| 0 <= t < used2.len() && #[trigger] used2[t].0 == p;
                if t < used.len() {
                    assert(used[t].0 == p);
                }
                assert(ports[k] == p);
            }
        }
    }
}

/// Modules whose port counts match and whose ports repeat neither each
/// other nor a port in use meet no failure.
proof fn lemma_plan_modules_no_failure(
    mods: Seq<Seq<char>>,
    i: int,
    map: Seq<(Seq<char>, Seq<u16>)>,
    used: Seq<(u16, Seq<char>)>,
    steps: Seq<(Seq<char>, u16, Seq<char>, bool)>,
)
    requires
        0 <= i,
        port_counts_match(mods, i, map),
        no_repeated_port(requested_ports(mods, i, map)),
        forall|j: int|
            0 <= j < requested_ports(mods, i, map).len() ==> !holds_port(
                used,
                #[trigger] requested_ports(mods, i, map)[j],
            ),
    ensures
        plan_modules(mods, i, map, used, steps).1 is None,
    decreases mods.len() - i,
{
    if i < mods.len() {
        let m = mods[i];
        let servers = module_servers(m);
        let ports = module_ports(map, m);
        let rest = requested_ports(mods, i + 1, map);
        let all = requested_ports(mods, i, map);
        assert(all == ports + rest);
        assert(servers.len() == ports.len());
        assert forall|a: int, b: int| 0 <= a < b < ports.len() implies ports[a] != ports[b] by {
            assert(all[a] == ports[a] && all[b] == ports[b]);
        }
        assert forall|j: int| 0 <= j < ports.len() implies !holds_port(used, #[trigger] ports[j]) by {
            assert(all[j] == ports[j]);
        }
        lemma_plan_services_no_conflict(m, servers, ports, 0, used, steps);
        let r = plan_services(m, servers, ports, 0, used, steps);
        assert(no_repeated_port(rest)) by {
            assert forall|a: int, b: int| 0 <= a < b < rest.len() implies rest[a] != rest[b] by {
                assert(all[ports.len() + a] == rest[a] && all[ports.len() + b] == rest[b]);
            }
        }
        assert forall|j: int| 0 <= j < rest.len() implies !holds_port(r.0, #[trigger] rest[j]) by {
            assert(all[ports.len() + j] == rest[j]);
            if holds_port(r.0, rest[j]) {
                if !holds_port(used, rest[j]) {
                    let q = choose|q: int| 0 <= q < ports.len() && #[trigger] ports[q] == rest[j];
                    assert(all[q] == ports[q]);
                }
            }
        }
        assert(port_counts_match(mods, i + 1, map));
        lemma_plan_modules_no_failure(mods, i + 1, map, r.0, r.1);
    }
}

/// A plan stops only for a reason: when every selected module has as many
/// ports as services, and the gateway port and the modules' ports are all
/// different, the plan meets no failure.
pub proof fn lemma_microservice_plan_without_conflict(
    mods: Seq<Seq<char>>,
    map: Seq<(Seq<char>, Seq<u16>)>,
    g: u16,
)
    requires
        port_counts_match(mods, 0, map),
        no_repeated_port(seq![g] + requested_ports(mods, 0, map)),
    ensures
        microservice_plan(mods, map, g).1 is None,
{
    let req = requested_ports(mods, 0, map);
    let all = seq![g] + req;
    let used = seq![(g, "gateway"@)];
    assert(no_repeated_port(req)) by {
        assert forall|a: int, b: int| 0 <= a < b < req.len() implies req[a] != req[b] by {
            assert(all[a + 1] == req[a] && all[b + 1] == req[b]);
        }
    }
    assert forall|j: int| 0 <= j < req.len() implies !holds_port(used, #[trigger] req[j]) by {
        assert(all[j + 1] == req[j]);
        assert(all[0] == g);
        if holds_port(used, req[j]) {
            let t = choose|t: int| 0 <= t < used.len() && #[trigger] used[t].0 == req[j];
            assert(t == 0);
        }
    }
    lemma_plan_modules_no_failure(mods, 0, map, used, seq![("yudao-gateway"@, g, "gateway"@, false)]);
}

} // verus!

verus! {

/// Every step after the first sets the tenant switch.
pub open spec fn later_steps_edit_tenant(steps: Seq<(Seq<char>, u16, Seq<char>, bool)>) -> bool {
    forall|i: int| 1 <= i < steps.len() ==> (#[trigger] steps[i]).3
}

/// A module's services all set the tenant switch.
proof fn lemma_plan_services_tenant(
    m: Seq<char>,
    servers: Seq<Seq<char>>,
    ports: Seq<u16>,
    k: int,
    used: Seq<(u16, Seq<char>)>,
    steps: Seq<(Seq<char>, u16, Seq<char>, bool)>,
)
    requires
        steps.len() >= 1,
        later_steps_edit_tenant(steps),
    ensures
        ({
            let r = plan_services(m, servers, ports, k, used, steps);
            &&& r.1.len() >= 1
            &&& r.1[0] == steps[0]
            &&& later_steps_edit_tenant(r.1)
        }),
    decreases servers.len() - k,
{
    if 0 <= k < servers.len() && k < ports.len() {
        let owner = owner_name(m, servers.len(), k as nat);
        if lookup_owner(used, ports[k]) is None {
            let steps2 = steps.push((module_server_dir(m, servers[k]), ports[k], owner, true));
            assert(later_steps_edit_tenant(steps2)) by {
                assert forall|i: int| 1 <= i < steps2.len() implies (#[trigger] steps2[i]).3 by {
                    if i < steps.len() {
                        assert(steps2[i] == steps[i]);
                    }
                }
            }
            lemma_plan_services_tenant(m, servers, ports, k + 1, used.push((ports[k], owner)), steps2);
        }
    }
}

/// The modules' services all set the tenant switch.
proof fn lemma_plan_modules_tenant(
    mods: Seq<Seq<char>>,
    i: int,
    map: Seq<(Seq<char>, Seq<u16>)>,
    used: Seq<(u16, Seq<char>)>,
    steps: Seq<(Seq<char>, u16, Seq<char>, bool)>,
)
    requires
        steps.len() >= 1,
        later_steps_edit_tenant(steps),
    ensures
        ({
            let r = plan_modules(mods, i, map, used, steps);
            &&& r.0.len() >= 1
            &&& r.0[0] == steps[0]
            &&& later_steps_edit_tenant(r.0)
        }),
    decreases mods.len() - i,
{
    if 0 <= i < mods.len() {
        let m = mods[i];
        let servers = module_servers(m);
        let ports = module_ports(map, m);
        if servers.len() == ports.len() {
            lemma_plan_services_tenant(m, servers, ports, 0, used, steps);
            let r = plan_services(m, servers, ports, 0, used, steps);
            if r.2 is None {
                lemma_plan_modules_tenant(mods, i + 1, map, r.0, r.1);
            }
        }
    }
}

/// The tenant switch goes where the services are: the gateway, the plan's
/// first step, keeps its own, and every other step, for every service of
/// every selected module however many services it has, sets it.
pub proof fn lemma_microservice_plan_tenant(mods: Seq<Seq<char>>, map: Seq<(Seq<char>, Seq<u16>)>, g: u16)
    ensures
        ({
            let r = microservice_plan(mods, map, g);
            &&& r.0.len() >= 1
            &&& !r.0[0].3
            &&& forall|i: int| 1 <= i < r.0.len() ==> (#[trigger] r.0[i]).3
        }),
{
    let steps = seq![("yudao-gateway"@, g, "gateway"@, false)];
    lemma_plan_modules_tenant(mods, 0, map, seq![(g, "gateway"@)], steps);
}

} // verus!
