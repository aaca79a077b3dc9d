//! The fixed catalog of the scaffolder: template repositories, front ends,
//! business modules and the services they consist of.
use vstd::prelude::*;
use crate::text::{str_eq, push_str};

verus! {

// ---------------------------------------------------------------------------
// Template repositories
// ---------------------------------------------------------------------------
/// A template repository that can be downloaded.
#[derive(Clone, Copy)]
pub struct TemplateSource {
    pub name: &'static str,
    pub kind: &'static str,
    pub github: &'static str,
    pub gitee: &'static str,
}

impl View for TemplateSource {
    type V = (Seq<char>, Seq<char>, Seq<char>, Seq<char>);

    open spec fn view(&self) -> Self::V {
        (self.name@, self.kind@, self.github@, self.gitee@)
    }
}

/// The template repositories, as (name, kind, GitHub address, Gitee address).
pub open spec fn template_table() -> Seq<(Seq<char>, Seq<char>, Seq<char>, Seq<char>)> {
    seq![
        ("ruoyi-vue-pro"@, "backend"@, "https://github.com/YunaiV/ruoyi-vue-pro.git"@, "https://gitee.com/zhijiantianya/ruoyi-vue-pro.git"@),
        ("yudao-cloud"@, "backend"@, "https://github.com/YunaiV/yudao-cloud.git"@, "https://gitee.com/zhijiantianya/yudao-cloud.git"@),
        ("yudao-ui-admin-vue3"@, "frontend"@, "https://github.com/yudaocode/yudao-ui-admin-vue3.git"@, "https://gitee.com/yudaocode/yudao-ui-admin-vue3.git"@),
        ("yudao-ui-admin-vben"@, "frontend"@, "https://github.com/yudaocode/yudao-ui-admin-vben.git"@, "https://gitee.com/yudaocode/yudao-ui-admin-vben.git"@),
        ("yudao-ui-admin-vue2"@, "frontend"@, "https://github.com/yudaocode/yudao-ui-admin-vue2.git"@, "https://gitee.com/yudaocode/yudao-ui-admin-vue2.git"@),
        ("yudao-ui-admin-uniapp"@, "frontend"@, "https://github.com/yudaocode/yudao-ui-admin-uniapp.git"@, "https://gitee.com/yudaocode/yudao-ui-admin-uniapp.git"@),
        ("yudao-mall-uniapp"@, "frontend"@, "https://github.com/yudaocode/yudao-mall-uniapp.git"@, "https://gitee.com/yudaocode/yudao-mall-uniapp.git"@),
        ("yudao-ui-go-view"@, "frontend"@, "https://github.com/yudaocode/yudao-ui-go-view.git"@, "https://gitee.com/yudaocode/yudao-ui-go-view.git"@),
    ]
}

/// The views of a list of templates.
pub open spec fn template_views(v: Seq<TemplateSource>) -> Seq<(Seq<char>, Seq<char>, Seq<char>, Seq<char>)> {
    v.map_values(|t: TemplateSource| t@)
}

/// All template repositories the scaffolder knows.
pub fn templates() -> (r: Vec<TemplateSource>)
    ensures
        template_views(r@) == template_table(),
{
    let r = vec![
        TemplateSource {
            name: "ruoyi-vue-pro",
            kind: "backend",
            github: "https://github.com/YunaiV/ruoyi-vue-pro.git",
            gitee: "https://gitee.com/zhijiantianya/ruoyi-vue-pro.git",
        },
        TemplateSource {
            name: "yudao-cloud",
            kind: "backend",
            github: "https://github.com/YunaiV/yudao-cloud.git",
            gitee: "https://gitee.com/zhijiantianya/yudao-cloud.git",
        },
        TemplateSource {
            name: "yudao-ui-admin-vue3",
            kind: "frontend",
            github: "https://github.com/yudaocode/yudao-ui-admin-vue3.git",
            gitee: "https://gitee.com/yudaocode/yudao-ui-admin-vue3.git",
        },
        TemplateSource {
            name: "yudao-ui-admin-vben",
            kind: "frontend",
            github: "https://github.com/yudaocode/yudao-ui-admin-vben.git",
            gitee: "https://gitee.com/yudaocode/yudao-ui-admin-vben.git",
        },
        TemplateSource {
            name: "yudao-ui-admin-vue2",
            kind: "frontend",
            github: "https://github.com/yudaocode/yudao-ui-admin-vue2.git",
            gitee: "https://gitee.com/yudaocode/yudao-ui-admin-vue2.git",
        },
        TemplateSource {
            name: "yudao-ui-admin-uniapp",
            kind: "frontend",
            github: "https://github.com/yudaocode/yudao-ui-admin-uniapp.git",
            gitee: "https://gitee.com/yudaocode/yudao-ui-admin-uniapp.git",
        },
        TemplateSource {
            name: "yudao-mall-uniapp",
            kind: "frontend",
            github: "https://github.com/yudaocode/yudao-mall-uniapp.git",
            gitee: "https://gitee.com/yudaocode/yudao-mall-uniapp.git",
        },
        TemplateSource {
            name: "yudao-ui-go-view",
            kind: "frontend",
            github: "https://github.com/yudaocode/yudao-ui-go-view.git",
            gitee: "https://gitee.com/yudaocode/yudao-ui-go-view.git",
        },
    ];
    assert(template_views(r@) =~= template_table());
    r
}

/// The index of the first entry of `t` at or after `i` whose first field is `key`.
pub open spec fn first_index_named<A, B, C>(t: Seq<(Seq<char>, A, B, C)>, key: Seq<char>, i: int) -> Option<int>
    decreases t.len() - i,
{
    if i < 0 || i >= t.len() {
        None
    } else if t[i].0 == key {
        Some(i)
    } else {
        first_index_named(t, key, i + 1)
    }
}

/// The template named `name`, as its catalog entry.
pub open spec fn template_named(name: Seq<char>) -> Option<(Seq<char>, Seq<char>, Seq<char>, Seq<char>)> {
    match first_index_named(template_table(), name, 0) {
        Some(i) => Some(template_table()[i]),
        None => None,
    }
}

/// The template repository called `name`.
pub fn template_source(name: &str) -> (r: Option<TemplateSource>)
    ensures
        match template_named(name@) {
            Some(t) => r matches Some(s) && s@ == t,
            None => r is None,
        },
{
    let all = templates();
    let mut i: usize = 0;
    while i < all.len()
        invariant
            template_views(all@) == template_table(),
            i <= all.len(),
            first_index_named(template_table(), name@, 0) == first_index_named(
                template_table(),
                name@,
                i as int,
            ),
        decreases all.len() - i,
    {
        assert(template_table()[i as int] == all@[i as int]@);
        if str_eq(all[i].name, name) {
            return Some(all[i]);
        }
        i += 1;
    }
    assert(template_table().len() == all@.len());
    None
}

// ---------------------------------------------------------------------------
// Front ends
// ---------------------------------------------------------------------------
/// A front end that can be generated, with the template it comes from and
/// the directory under `frontend/` it goes to.
#[derive(Clone, Copy)]
pub struct FrontendSource {
    pub id: &'static str,
    pub template: &'static str,
    pub role_suffix: &'static str,
}

impl View for FrontendSource {
    type V = (Seq<char>, Seq<char>, Seq<char>, ());

    open spec fn view(&self) -> Self::V {
        (self.id@, self.template@, self.role_suffix@, ())
    }
}

/// The front ends, as (id, template, directory, ()).
pub open spec fn frontend_table() -> Seq<(Seq<char>, Seq<char>, Seq<char>, ())> {
    seq![
        ("admin-vue3"@, "yudao-ui-admin-vue3"@, "admin"@, ()),
        ("admin-vben"@, "yudao-ui-admin-vben"@, "admin"@, ()),
        ("admin-vue2"@, "yudao-ui-admin-vue2"@, "admin"@, ()),
        ("admin-uniapp"@, "yudao-ui-admin-uniapp"@, "admin-uniapp"@, ()),
        ("mall-uniapp"@, "yudao-mall-uniapp"@, "mall"@, ()),
        ("go-view"@, "yudao-ui-go-view"@, "dashboard"@, ()),
    ]
}

/// The front end with id `id`, as its catalog entry.
pub open spec fn frontend_named(id: Seq<char>) -> Option<(Seq<char>, Seq<char>, Seq<char>, ())> {
    match first_index_named(frontend_table(), id, 0) {
        Some(i) => Some(frontend_table()[i]),
        None => None,
    }
}

/// The front end with id `id`.
pub fn frontend_source(id: &str) -> (r: Option<FrontendSource>)
    ensures
        match frontend_named(id@) {
            Some(f) => r matches Some(s) && s@ == f,
            None => r is None,
        },
{
    let all = vec![
        FrontendSource { id: "admin-vue3", template: "yudao-ui-admin-vue3", role_suffix: "admin" },
        FrontendSource { id: "admin-vben", template: "yudao-ui-admin-vben", role_suffix: "admin" },
        FrontendSource { id: "admin-vue2", template: "yudao-ui-admin-vue2", role_suffix: "admin" },
        FrontendSource {
            id: "admin-uniapp",
            template: "yudao-ui-admin-uniapp",
            role_suffix: "admin-uniapp",
        },
        FrontendSource { id: "mall-uniapp", template: "yudao-mall-uniapp", role_suffix: "mall" },
        FrontendSource { id: "go-view", template: "yudao-ui-go-view", role_suffix: "dashboard" },
    ];
    assert(all@.map_values(|f: FrontendSource| f@) =~= frontend_table());
    let mut i: usize = 0;
    while i < all.len()
        invariant
            all@.map_values(|f: FrontendSource| f@) == frontend_table(),
            i <= all.len(),
            first_index_named(frontend_table(), id@, 0) == first_index_named(
                frontend_table(),
                id@,
                i as int,
            ),
        decreases all.len() - i,
    {
        assert(frontend_table()[i as int] == all@[i as int]@);
        if str_eq(all[i].id, id) {
            return Some(all[i]);
        }
        i += 1;
    }
    assert(frontend_table().len() == all@.len());
    None
}

// ---------------------------------------------------------------------------
// Business modules
// ---------------------------------------------------------------------------
/// The business modules a project may select.
pub open spec fn selectable_modules() -> Seq<Seq<char>> {
    seq![
        "system"@,
        "infra"@,
        "member"@,
        "bpm"@,
        "pay"@,
        "mp"@,
        "mall"@,
        "crm"@,
        "erp"@,
        "iot"@,
        "mes"@,
        "report"@,
        "ai"@,
    ]
}

/// The views of a list of string slices.
pub open spec fn str_views(v: Seq<&str>) -> Seq<Seq<char>> {
    v.map_values(|s: &str| s@)
}

/// The business modules a project may select.
pub fn selectable_module_names() -> (r: Vec<&'static str>)
    ensures
        str_views(r@) == selectable_modules(),
{
    let r = vec![
        "system",
        "infra",
        "member",
        "bpm",
        "pay",
        "mp",
        "mall",
        "crm",
        "erp",
        "iot",
        "mes",
        "report",
        "ai",
    ];
    assert(str_views(r@) =~= selectable_modules());
    r
}

/// Whether `names` holds `name`.
pub fn list_contains(names: &Vec<&'static str>, name: &str) -> (r: bool)
    ensures
        r == str_views(names@).contains(name@),
{
    let mut i: usize = 0;
    while i < names.len()
        invariant
            i <= names.len(),
            forall|k: int| 0 <= k < i ==> str_views(names@)[k] != name@,
        decreases names.len() - i,
    {
        if str_eq(names[i], name) {
            assert(str_views(names@)[i as int] == name@);
            return true;
        }
        i += 1;
    }
    false
}

/// The Maven artifacts of the server that a selected module enables.
pub open spec fn server_artifacts(m: Seq<char>) -> Seq<Seq<char>> {
    if m == "mall"@ {
        seq![
            "yudao-module-product"@,
            "yudao-module-promotion"@,
            "yudao-module-trade"@,
            "yudao-module-statistics"@,
        ]
    } else if m == "iot"@ {
        seq!["yudao-module-iot-biz"@]
    } else if m == "system"@ {
        seq!["yudao-module-system"@]
    } else if m == "infra"@ {
        seq!["yudao-module-infra"@]
    } else if m == "member"@ {
        seq!["yudao-module-member"@]
    } else if m == "bpm"@ {
        seq!["yudao-module-bpm"@]
    } else if m == "pay"@ {
        seq!["yudao-module-pay"@]
    } else if m == "mp"@ {
        seq!["yudao-module-mp"@]
    } else if m == "crm"@ {
        seq!["yudao-module-crm"@]
    } else if m == "erp"@ {
        seq!["yudao-module-erp"@]
    } else if m == "mes"@ {
        seq!["yudao-module-mes"@]
    } else if m == "report"@ {
        seq!["yudao-module-report"@]
    } else if m == "ai"@ {
        seq!["yudao-module-ai"@]
    } else {
        seq![]
    }
}

/// The Maven artifacts that selecting `module` enables in the server POM.
pub fn module_server_artifacts(module: &str) -> (r: Vec<&'static str>)
    ensures
        str_views(r@) == server_artifacts(module@),
{
    let r = if str_eq(module, "mall") {
        vec![
            "yudao-module-product",
            "yudao-module-promotion",
            "yudao-module-trade",
            "yudao-module-statistics",
        ]
    } else if str_eq(module, "iot") {
        vec!["yudao-module-iot-biz"]
    } else if str_eq(module, "system") {
        vec!["yudao-module-system"]
    } else if str_eq(module, "infra") {
        vec!["yudao-module-infra"]
    } else if str_eq(module, "member") {
        vec!["yudao-module-member"]
    } else if str_eq(module, "bpm") {
        vec!["yudao-module-bpm"]
    } else if str_eq(module, "pay") {
        vec!["yudao-module-pay"]
    } else if str_eq(module, "mp") {
        vec!["yudao-module-mp"]
    } else if str_eq(module, "crm") {
        vec!["yudao-module-crm"]
    } else if str_eq(module, "erp") {
        vec!["yudao-module-erp"]
    } else if str_eq(module, "mes") {
        vec!["yudao-module-mes"]
    } else if str_eq(module, "report") {
        vec!["yudao-module-report"]
    } else if str_eq(module, "ai") {
        vec!["yudao-module-ai"]
    } else {
        vec![]
    };
    assert(str_views(r@) =~= server_artifacts(module@));
    r
}

/// The microservice servers that make up a module, in port order.
pub open spec fn module_servers(m: Seq<char>) -> Seq<Seq<char>> {
    if m == "mall"@ {
        seq![
            "yudao-module-product-server"@,
            "yudao-module-trade-server"@,
            "yudao-module-promotion-server"@,
            "yudao-module-statistics-server"@,
        ]
    } else if m == "iot"@ {
        seq!["yudao-module-iot-server"@]
    } else if m == "system"@ {
        seq!["yudao-module-system-server"@]
    } else if m == "infra"@ {
        seq!["yudao-module-infra-server"@]
    } else if m == "member"@ {
        seq!["yudao-module-member-server"@]
    } else if m == "bpm"@ {
        seq!["yudao-module-bpm-server"@]
    } else if m == "pay"@ {
        seq!["yudao-module-pay-server"@]
    } else if m == "mp"@ {
        seq!["yudao-module-mp-server"@]
    } else if m == "crm"@ {
        seq!["yudao-module-crm-server"@]
    } else if m == "erp"@ {
        seq!["yudao-module-erp-server"@]
    } else if m == "mes"@ {
        seq!["yudao-module-mes-server"@]
    } else if m == "report"@ {
        seq!["yudao-module-report-server"@]
    } else if m == "ai"@ {
        seq!["yudao-module-ai-server"@]
    } else {
        seq![]
    }
}

/// The microservice servers of a module.
pub fn microservice_servers(module: &str) -> (r: Vec<&'static str>)
    ensures
        str_views(r@) == module_servers(module@),
{
    let r = if str_eq(module, "mall") {
        vec![
            "yudao-module-product-server",
            "yudao-module-trade-server",
            "yudao-module-promotion-server",
            "yudao-module-statistics-server",
        ]
    } else if str_eq(module, "iot") {
        vec!["yudao-module-iot-server"]
    } else if str_eq(module, "system") {
        vec!["yudao-module-system-server"]
    } else if str_eq(module, "infra") {
        vec!["yudao-module-infra-server"]
    } else if str_eq(module, "member") {
        vec!["yudao-module-member-server"]
    } else if str_eq(module, "bpm") {
        vec!["yudao-module-bpm-server"]
    } else if str_eq(module, "pay") {
        vec!["yudao-module-pay-server"]
    } else if str_eq(module, "mp") {
        vec!["yudao-module-mp-server"]
    } else if str_eq(module, "crm") {
        vec!["yudao-module-crm-server"]
    } else if str_eq(module, "erp") {
        vec!["yudao-module-erp-server"]
    } else if str_eq(module, "mes") {
        vec!["yudao-module-mes-server"]
    } else if str_eq(module, "report") {
        vec!["yudao-module-report-server"]
    } else if str_eq(module, "ai") {
        vec!["yudao-module-ai-server"]
    } else {
        vec![]
    };
    assert(str_views(r@) =~= module_servers(module@));
    r
}

/// The resources directory of server `s` of module `m`, relative to the backend root.
pub open spec fn resource_dir(m: Seq<char>, s: Seq<char>) -> Seq<char> {
    "yudao-module-"@ + m + "/"@ + s + "/src/main/resources"@
}

/// The views of a vector of strings.
pub open spec fn string_views(v: Seq<String>) -> Seq<Seq<char>> {
    v.map_values(|s: String| s@)
}

/// The resources directories of a module's servers, relative to the backend
/// root and written with `/`.
pub fn microservice_resource_dirs(module: &str) -> (r: Vec<String>)
    ensures
        string_views(r@) == Seq::new(
            module_servers(module@).len(),
            |i: int| resource_dir(module@, module_servers(module@)[i]),
        ),
{
    let servers = microservice_servers(module);
    let ghost target = Seq::new(
        module_servers(module@).len(),
        |i: int| resource_dir(module@, module_servers(module@)[i]),
    );
    let mut r: Vec<String> = Vec::new();
    let mut i: usize = 0;
    while i < servers.len()
        invariant
            str_views(servers@) == module_servers(module@),
            target == Seq::new(
                module_servers(module@).len(),
                |i: int| resource_dir(module@, module_servers(module@)[i]),
            ),
            i <= servers.len(),
            r@.len() == i,
            forall|k: int| 0 <= k < i ==> #[trigger] r@[k]@ == target[k],
        decreases servers.len() - i,
    {
        let mut d = String::new();
        push_str(&mut d, "yudao-module-");
        push_str(&mut d, module);
        push_str(&mut d, "/");
        push_str(&mut d, servers[i]);
        push_str(&mut d, "/src/main/resources");
        assert(str_views(servers@)[i as int] == servers@[i as int]@);
        r.push(d);
        i += 1;
    }
    assert(string_views(r@) =~= target);
    r
}

/// The default ports of a module's microservice servers.
pub open spec fn default_ports(m: Seq<char>) -> Seq<u16> {
    if m == "system"@ {
        seq![48081]
    } else if m == "infra"@ {
        seq![48082]
    } else if m == "member"@ {
        seq![48087]
    } else if m == "bpm"@ {
        seq![48083]
    } else if m == "pay"@ {
        seq![48085]
    } else if m == "mp"@ {
        seq![48086]
    } else if m == "mall"@ {
        seq![48100, 48102, 48101, 48103]
    } else if m == "crm"@ {
        seq![48089]
    } else if m == "erp"@ {
        seq![48088]
    } else if m == "iot"@ {
        seq![48091]
    } else if m == "mes"@ {
        seq![48092]
    } else if m == "report"@ {
        seq![48084]
    } else if m == "ai"@ {
        seq![48090]
    } else {
        seq![]
    }
}

/// The default ports of a module's microservice servers.
pub fn default_microservice_ports(module: &str) -> (r: Vec<u16>)
    ensures
        r@ == default_ports(module@),
{
    let r = if str_eq(module, "system") {
        vec![48081]
    } else if str_eq(module, "infra") {
        vec![48082]
    } else if str_eq(module, "member") {
        vec![48087]
    } else if str_eq(module, "bpm") {
        vec![48083]
    } else if str_eq(module, "pay") {
        vec![48085]
    } else if str_eq(module, "mp") {
        vec![48086]
    } else if str_eq(module, "mall") {
        vec![48100, 48102, 48101, 48103]
    } else if str_eq(module, "crm") {
        vec![48089]
    } else if str_eq(module, "erp") {
        vec![48088]
    } else if str_eq(module, "iot") {
        vec![48091]
    } else if str_eq(module, "mes") {
        vec![48092]
    } else if str_eq(module, "report") {
        vec![48084]
    } else if str_eq(module, "ai") {
        vec![48090]
    } else {
        vec![]
    };
    assert(r@ =~= default_ports(module@));
    r
}

/// The Vben UI variants.
pub open spec fn vben_variants() -> Seq<Seq<char>> {
    seq!["antd"@, "antdv-next"@, "ele"@, "naive"@, "tdesign"@]
}

/// The Vben UI variants.
pub fn vben_variant_names() -> (r: Vec<&'static str>)
    ensures
        str_views(r@) == vben_variants(),
{
    let r = vec!["antd", "antdv-next", "ele", "naive", "tdesign"];
    assert(str_views(r@) =~= vben_variants());
    r
}

} // verus!

verus! {

// ---------------------------------------------------------------------------
// Metadata shown to the user
// ---------------------------------------------------------------------------
/// A business module as the form presents it.
pub struct ModuleInfo {
    pub id: &'static str,
    pub title: &'static str,
    pub description: &'static str,
    /// The modules it needs.
    pub deps: Vec<&'static str>,
    /// Made of several services.
    pub composite: bool,
    /// Needs JDK 17.
    pub jdk17_only: bool,
    /// Always selected.
    pub required: bool,
    /// The default ports of its microservice servers.
    pub ports: Vec<u16>,
    /// The names of its services, for a composite module.
    pub subnames: Option<Vec<&'static str>>,
}

/// The plain values of a module's metadata.
pub type ModuleInfoView = (
    (Seq<char>, Seq<char>, Seq<char>),
    Seq<Seq<char>>,
    (bool, bool, bool),
    Seq<u16>,
    Option<Seq<Seq<char>>>,
);

impl View for ModuleInfo {
    type V = ModuleInfoView;

    open spec fn view(&self) -> ModuleInfoView {
        (
            (self.id@, self.title@, self.description@),
            str_views(self.deps@),
            (self.composite, self.jdk17_only, self.required),
            self.ports@,
            match self.subnames {
                Some(s) => Some(str_views(s@)),
                None => None,
            },
        )
    }
}

/// The business modules, in the order the form shows them.
pub open spec fn module_table() -> Seq<ModuleInfoView> {
    seq![        (("infra"@, "基础设施"@, "配置、文件、代码生成与系统支撑能力"@), seq![], (false, false, true), seq![48082], None),
        (("system"@, "系统管理"@, "用户、角色、菜单、权限、部门、岗位、字典等基础后台能力"@), seq!["infra"@], (false, false, true), seq![48081], None),
        (("member"@, "会员中心"@, "会员、等级、积分、地址等用户侧基础能力"@), seq!["system"@], (false, false, false), seq![48087], None),
        (("bpm"@, "工作流程"@, "Flowable 流程定义、任务、审批与表单能力"@), seq!["system"@], (false, false, false), seq![48083], None),
        (("pay"@, "支付中心"@, "支付订单、退款、渠道与回调管理"@), seq!["system"@], (false, false, false), seq![48085], None),
        (("mp"@, "微信公众号"@, "公众号账号、消息、菜单、素材与粉丝管理"@), seq!["system"@], (false, false, false), seq![48086], None),
        (("mall"@, "商城系统"@, "商品、交易、营销、统计等商城业务模块"@), seq!["system"@, "member"@, "pay"@], (true, false, false), seq![48100, 48102, 48101, 48103], Some(seq!["product"@, "trade"@, "promotion"@, "statistics"@])),
        (("crm"@, "CRM"@, "客户、商机、合同、回款等客户关系管理"@), seq!["system"@], (false, false, false), seq![48089], None),
        (("erp"@, "ERP"@, "采购、销售、库存、财务等企业资源管理"@), seq!["system"@], (false, false, false), seq![48088], None),
        (("iot"@, "IoT"@, "产品、设备、物模型、消息与规则引擎"@), seq!["system"@], (false, false, false), seq![48091], None),
        (("mes"@, "MES"@, "生产计划、工单、质量、设备与车间管理"@), seq!["system"@], (false, false, false), seq![48092], None),
        (("report"@, "报表设计"@, "报表、仪表盘与数据可视化能力"@), seq!["system"@], (false, false, false), seq![48084], None),
        (("ai"@, "AI 大模型"@, "AI 对话、知识库、绘画与工作流能力，需要 JDK 17"@), seq!["system"@], (false, true, false), seq![48090], None),
    ]
}

/// The business modules, in the order the form shows them.
pub fn module_meta() -> (r: Vec<ModuleInfo>)
    ensures
        r@.map_values(|m: ModuleInfo| m@) == module_table(),
{
    let r = vec![
        ModuleInfo {
            id: "infra",
            title: "基础设施",
            description: "配置、文件、代码生成与系统支撑能力",
            deps: vec![],
            composite: false,
            jdk17_only: false,
            required: true,
            ports: vec![48082],
            subnames: None,
        },
        ModuleInfo {
            id: "system",
            title: "系统管理",
            description: "用户、角色、菜单、权限、部门、岗位、字典等基础后台能力",
            deps: vec!["infra"],
            composite: false,
            jdk17_only: false,
            required: true,
            ports: vec![48081],
            subnames: None,
        },
        ModuleInfo {
            id: "member",
            title: "会员中心",
            description: "会员、等级、积分、地址等用户侧基础能力",
            deps: vec!["system"],
            composite: false,
            jdk17_only: false,
            required: false,
            ports: vec![48087],
            subnames: None,
        },
        ModuleInfo {
            id: "bpm",
            title: "工作流程",
            description: "Flowable 流程定义、任务、审批与表单能力",
            deps: vec!["system"],
            composite: false,
            jdk17_only: false,
            required: false,
            ports: vec![48083],
            subnames: None,
        },
        ModuleInfo {
            id: "pay",
            title: "支付中心",
            description: "支付订单、退款、渠道与回调管理",
            deps: vec!["system"],
            composite: false,
            jdk17_only: false,
            required: false,
            ports: vec![48085],
            subnames: None,
        },
        ModuleInfo {
            id: "mp",
            title: "微信公众号",
            description: "公众号账号、消息、菜单、素材与粉丝管理",
            deps: vec!["system"],
            composite: false,
            jdk17_only: false,
            required: false,
            ports: vec![48086],
            subnames: None,
        },
        ModuleInfo {
            id: "mall",
            title: "商城系统",
            description: "商品、交易、营销、统计等商城业务模块",
            deps: vec!["system", "member", "pay"],
            composite: true,
            jdk17_only: false,
            required: false,
            ports: vec![48100, 48102, 48101, 48103],
            subnames: Some(vec!["product", "trade", "promotion", "statistics"]),
        },
        ModuleInfo {
            id: "crm",
            title: "CRM",
            description: "客户、商机、合同、回款等客户关系管理",
            deps: vec!["system"],
            composite: false,
            jdk17_only: false,
            required: false,
            ports: vec![48089],
            subnames: None,
        },
        ModuleInfo {
            id: "erp",
            title: "ERP",
            description: "采购、销售、库存、财务等企业资源管理",
            deps: vec!["system"],
            composite: false,
            jdk17_only: false,
            required: false,
            ports: vec![48088],
            subnames: None,
        },
        ModuleInfo {
            id: "iot",
            title: "IoT",
            description: "产品、设备、物模型、消息与规则引擎",
            deps: vec!["system"],
            composite: false,
            jdk17_only: false,
            required: false,
            ports: vec![48091],
            subnames: None,
        },
        ModuleInfo {
            id: "mes",
            title: "MES",
            description: "生产计划、工单、质量、设备与车间管理",
            deps: vec!["system"],
            composite: false,
            jdk17_only: false,
            required: false,
            ports: vec![48092],
            subnames: None,
        },
        ModuleInfo {
            id: "report",
            title: "报表设计",
            description: "报表、仪表盘与数据可视化能力",
            deps: vec!["system"],
            composite: false,
            jdk17_only: false,
            required: false,
            ports: vec![48084],
            subnames: None,
        },
        ModuleInfo {
            id: "ai",
            title: "AI 大模型",
            description: "AI 对话、知识库、绘画与工作流能力，需要 JDK 17",
            deps: vec!["system"],
            composite: false,
            jdk17_only: true,
            required: false,
            ports: vec![48090],
            subnames: None,
        },
    ];
    assert(r@.map_values(|m: ModuleInfo| m@) =~~= module_table());
    r
}

/// A front end as the form presents it.
pub struct FrontendInfo {
    pub id: &'static str,
    pub title: &'static str,
    pub description: &'static str,
    /// The template it comes from.
    pub local: &'static str,
    pub role: &'static str,
    /// The directory under `frontend/` it goes to.
    pub role_suffix: &'static str,
    pub modular: bool,
}

/// The plain values of a front end's metadata.
pub type FrontendInfoView = ((Seq<char>, Seq<char>, Seq<char>), (Seq<char>, Seq<char>, Seq<char>), bool);

impl View for FrontendInfo {
    type V = FrontendInfoView;

    open spec fn view(&self) -> FrontendInfoView {
        (
            (self.id@, self.title@, self.description@),
            (self.local@, self.role@, self.role_suffix@),
            self.modular,
        )
    }
}

/// The front ends, in the order the form shows them.
pub open spec fn frontend_meta_table() -> Seq<FrontendInfoView> {
    seq![
        (("admin-vue3"@, "Vue3 管理后台"@, "Element Plus 管理后台，适合新项目默认选择"@), ("yudao-ui-admin-vue3"@, "admin"@, "admin"@), true),
        (("admin-vben"@, "Vben 管理后台"@, "Vben 5 管理后台，支持多套 UI 变体"@), ("yudao-ui-admin-vben"@, "admin"@, "admin"@), true),
        (("admin-vue2"@, "Vue2 管理后台"@, "Element UI 管理后台，适合维护 Vue2 技术栈"@), ("yudao-ui-admin-vue2"@, "admin"@, "admin"@), true),
        (("admin-uniapp"@, "移动管理端"@, "uni-app 管理端，支持 H5/小程序/APP"@), ("yudao-ui-admin-uniapp"@, "admin"@, "admin-uniapp"@), false),
        (("mall-uniapp"@, "商城移动端"@, "商城 uni-app，多端发行"@), ("yudao-mall-uniapp"@, "mall"@, "mall"@), false),
        (("go-view"@, "GoView 大屏"@, "低代码数据可视化大屏"@), ("yudao-ui-go-view"@, "dashboard"@, "dashboard"@), false),
    ]
}

/// The front ends, in the order the form shows them.
pub fn frontend_meta() -> (r: Vec<FrontendInfo>)
    ensures
        r@.map_values(|f: FrontendInfo| f@) == frontend_meta_table(),
{
    let r = vec![
        FrontendInfo {
            id: "admin-vue3",
            title: "Vue3 管理后台",
            description: "Element Plus 管理后台，适合新项目默认选择",
            local: "yudao-ui-admin-vue3",
            role: "admin",
            role_suffix: "admin",
            modular: true,
        },
        FrontendInfo {
            id: "admin-vben",
            title: "Vben 管理后台",
            description: "Vben 5 管理后台，支持多套 UI 变体",
            local: "yudao-ui-admin-vben",
            role: "admin",
            role_suffix: "admin",
            modular: true,
        },
        FrontendInfo {
            id: "admin-vue2",
            title: "Vue2 管理后台",
            description: "Element UI 管理后台，适合维护 Vue2 技术栈",
            local: "yudao-ui-admin-vue2",
            role: "admin",
            role_suffix: "admin",
            modular: true,
        },
        FrontendInfo {
            id: "admin-uniapp",
            title: "移动管理端",
            description: "uni-app 管理端，支持 H5/小程序/APP",
            local: "yudao-ui-admin-uniapp",
            role: "admin",
            role_suffix: "admin-uniapp",
            modular: false,
        },
        FrontendInfo {
            id: "mall-uniapp",
            title: "商城移动端",
            description: "商城 uni-app，多端发行",
            local: "yudao-mall-uniapp",
            role: "mall",
            role_suffix: "mall",
            modular: false,
        },
        FrontendInfo {
            id: "go-view",
            title: "GoView 大屏",
            description: "低代码数据可视化大屏",
            local: "yudao-ui-go-view",
            role: "dashboard",
            role_suffix: "dashboard",
            modular: false,
        },
    ];
    assert(r@.map_values(|f: FrontendInfo| f@) =~= frontend_meta_table());
    r
}

} // verus!

verus! {

/// The form's metadata agrees with what generation does: each listed module
/// is selectable, its default ports are the ports a microservice plan gives
/// it by default, one per service, and exactly `system` and `infra` are
/// marked required.
pub proof fn lemma_module_meta_matches_plan(i: int)
    requires
        0 <= i < module_table().len(),
    ensures
        ({
            let m = module_table()[i];
            let id = m.0.0;
            &&& selectable_modules().contains(id)
            &&& m.3 == default_ports(id)
            &&& module_servers(id).len() == m.3.len()
            &&& (m.2.2 <==> (id == "system"@ || id == "infra"@))
        }),
{
    reveal_strlit("system");
    reveal_strlit("infra");
    reveal_strlit("member");
    reveal_strlit("bpm");
    reveal_strlit("pay");
    reveal_strlit("mp");
    reveal_strlit("mall");
    reveal_strlit("crm");
    reveal_strlit("erp");
    reveal_strlit("iot");
    reveal_strlit("mes");
    reveal_strlit("report");
    reveal_strlit("ai");
    let id = module_table()[i].0.0;
    let k = if i == 0 {
        1
    } else if i == 1 {
        0
    } else {
        i
    };
    assert(selectable_modules()[k] == id);
    if i == 0 {
        assert(id == "infra"@);
        assert(default_ports(id) == module_table()[i].3);
        assert(module_servers(id).len() == module_table()[i].3.len());
    } else if i == 1 {
        assert(id == "system"@);
        assert(id[0] != "member"@[0]);
        assert(id[0] != "report"@[0]);
        assert(default_ports(id) == module_table()[i].3);
        assert(module_servers(id).len() == module_table()[i].3.len());
    } else if i == 2 {
        assert(id == "member"@);
        assert(id[0] != "report"@[0]);
        assert(id[0] != "system"@[0]);
        assert(default_ports(id) == module_table()[i].3);
        assert(module_servers(id).len() == module_table()[i].3.len());
    } else if i == 3 {
        assert(id == "bpm"@);
        assert(id[0] != "crm"@[0]);
        assert(id[0] != "erp"@[0]);
        assert(id[0] != "iot"@[0]);
        assert(id[0] != "mes"@[0]);
        assert(id[0] != "pay"@[0]);
        assert(default_ports(id) == module_table()[i].3);
        assert(module_servers(id).len() == module_table()[i].3.len());
    } else if i == 4 {
        assert(id == "pay"@);
        assert(id[0] != "bpm"@[0]);
        assert(id[0] != "crm"@[0]);
        assert(id[0] != "erp"@[0]);
        assert(id[0] != "iot"@[0]);
        assert(id[0] != "mes"@[0]);
        assert(default_ports(id) == module_table()[i].3);
        assert(module_servers(id).len() == module_table()[i].3.len());
    } else if i == 5 {
        assert(id == "mp"@);
        assert(id[0] != "ai"@[0]);
        assert(default_ports(id) == module_table()[i].3);
        assert(module_servers(id).len() == module_table()[i].3.len());
    } else if i == 6 {
        assert(id == "mall"@);
        assert(default_ports(id) == module_table()[i].3);
        assert(module_servers(id).len() == module_table()[i].3.len());
    } else if i == 7 {
        assert(id == "crm"@);
        assert(id[0] != "bpm"@[0]);
        assert(id[0] != "erp"@[0]);
        assert(id[0] != "iot"@[0]);
        assert(id[0] != "mes"@[0]);
        assert(id[0] != "pay"@[0]);
        assert(default_ports(id) == module_table()[i].3);
        assert(module_servers(id).len() == module_table()[i].3.len());
    } else if i == 8 {
        assert(id == "erp"@);
        assert(id[0] != "bpm"@[0]);
        assert(id[0] != "crm"@[0]);
        assert(id[0] != "iot"@[0]);
        assert(id[0] != "mes"@[0]);
        assert(id[0] != "pay"@[0]);
        assert(default_ports(id) == module_table()[i].3);
        assert(module_servers(id).len() == module_table()[i].3.len());
    } else if i == 9 {
        assert(id == "iot"@);
        assert(id[0] != "bpm"@[0]);
        assert(id[0] != "crm"@[0]);
        assert(id[0] != "erp"@[0]);
        assert(id[0] != "mes"@[0]);
        assert(id[0] != "pay"@[0]);
        assert(default_ports(id) == module_table()[i].3);
        assert(module_servers(id).len() == module_table()[i].3.len());
    } else if i == 10 {
        assert(id == "mes"@);
        assert(id[0] != "bpm"@[0]);
        assert(id[0] != "crm"@[0]);
        assert(id[0] != "erp"@[0]);
        assert(id[0] != "iot"@[0]);
        assert(id[0] != "pay"@[0]);
        assert(default_ports(id) == module_table()[i].3);
        assert(module_servers(id).len() == module_table()[i].3.len());
    } else if i == 11 {
        assert(id == "report"@);
        assert(id[0] != "member"@[0]);
        assert(id[0] != "system"@[0]);
        assert(default_ports(id) == module_table()[i].3);
        assert(module_servers(id).len() == module_table()[i].3.len());
    } else if i == 12 {
        assert(id == "ai"@);
        assert(id[0] != "mp"@[0]);
        assert(default_ports(id) == module_table()[i].3);
        assert(module_servers(id).len() == module_table()[i].3.len());
    }
}

} // verus!

verus! {

// ---------------------------------------------------------------------------
// Laws of the catalog tables
// ---------------------------------------------------------------------------
/// The length, first and last character of a non-empty name: enough to tell
/// apart the names within each catalog table.
pub open spec fn name_key(s: Seq<char>) -> (int, char, char) {
    (s.len() as int, s[0], s[s.len() - 1])
}

/// The first entry named `key` at or after `i` is at `k` when it is named so
/// and no entry in between is.
proof fn lemma_first_index_at<A, B, C>(t: Seq<(Seq<char>, A, B, C)>, key: Seq<char>, i: int, k: int)
    requires
        0 <= i <= k < t.len(),
        t[k].0 == key,
        forall|m: int| i <= m < k ==> t[m].0 != key,
    ensures
        first_index_named(t, key, i) == Some(k),
    decreases k - i,
{
    if i < k {
        lemma_first_index_at(t, key, i + 1, k);
    }
}

/// The name keys of the business modules, in table order.
spec fn module_key_at(k: int) -> (int, char, char) {
    if k == 0 {
        (5int, 'i', 'a')
    } else if k == 1 {
        (6int, 's', 'm')
    } else if k == 2 {
        (6int, 'm', 'r')
    } else if k == 3 {
        (3int, 'b', 'm')
    } else if k == 4 {
        (3int, 'p', 'y')
    } else if k == 5 {
        (2int, 'm', 'p')
    } else if k == 6 {
        (4int, 'm', 'l')
    } else if k == 7 {
        (3int, 'c', 'm')
    } else if k == 8 {
        (3int, 'e', 'p')
    } else if k == 9 {
        (3int, 'i', 't')
    } else if k == 10 {
        (3int, 'm', 's')
    } else if k == 11 {
        (6int, 'r', 't')
    } else {
        (2int, 'a', 'i')
    }
}

proof fn lemma_module_key(k: int)
    requires
        0 <= k < module_table().len(),
    ensures
        name_key(module_table()[k].0.0) == module_key_at(k),
{
    reveal_strlit("infra");
    reveal_strlit("system");
    reveal_strlit("member");
    reveal_strlit("bpm");
    reveal_strlit("pay");
    reveal_strlit("mp");
    reveal_strlit("mall");
    reveal_strlit("crm");
    reveal_strlit("erp");
    reveal_strlit("iot");
    reveal_strlit("mes");
    reveal_strlit("report");
    reveal_strlit("ai");
    if k == 0 {
        assert(module_table()[k].0.0 == "infra"@);
    } else if k == 1 {
        assert(module_table()[k].0.0 == "system"@);
    } else if k == 2 {
        assert(module_table()[k].0.0 == "member"@);
    } else if k == 3 {
        assert(module_table()[k].0.0 == "bpm"@);
    } else if k == 4 {
        assert(module_table()[k].0.0 == "pay"@);
    } else if k == 5 {
        assert(module_table()[k].0.0 == "mp"@);
    } else if k == 6 {
        assert(module_table()[k].0.0 == "mall"@);
    } else if k == 7 {
        assert(module_table()[k].0.0 == "crm"@);
    } else if k == 8 {
        assert(module_table()[k].0.0 == "erp"@);
    } else if k == 9 {
        assert(module_table()[k].0.0 == "iot"@);
    } else if k == 10 {
        assert(module_table()[k].0.0 == "mes"@);
    } else if k == 11 {
        assert(module_table()[k].0.0 == "report"@);
    } else if k == 12 {
        assert(module_table()[k].0.0 == "ai"@);
    }
}

/// The business module table is well formed: its ids are distinct and are
/// exactly the selectable modules, every dependency is a listed module,
/// only `ai` needs JDK 17, only `mall` is composite and it names one service
/// per default port.
pub proof fn lemma_module_meta_laws(i: int, j: int)
    requires
        0 <= i < module_table().len(),
        0 <= j < module_table().len(),
    ensures
        ({
            let m = module_table()[i];
            let id = m.0.0;
            &&& i != j ==> id != module_table()[j].0.0
            &&& module_table().len() == selectable_modules().len()
            &&& exists|k: int| 0 <= k < module_table().len() && #[trigger] module_table()[k].0.0 == selectable_modules()[i]
            &&& forall|d: int| #![trigger m.1[d]] 0 <= d < m.1.len() ==> exists|k: int| 0 <= k < module_table().len() && #[trigger] module_table()[k].0.0 == m.1[d]
            &&& (m.2.1 <==> id == "ai"@)
            &&& (m.2.0 <==> id == "mall"@)
            &&& (m.4 is Some <==> m.2.0)
            &&& (m.4 matches Some(s) ==> s.len() == m.3.len())
        }),
{
    reveal_strlit("infra");
    reveal_strlit("system");
    reveal_strlit("member");
    reveal_strlit("bpm");
    reveal_strlit("pay");
    reveal_strlit("mp");
    reveal_strlit("mall");
    reveal_strlit("crm");
    reveal_strlit("erp");
    reveal_strlit("iot");
    reveal_strlit("mes");
    reveal_strlit("report");
    reveal_strlit("ai");
    lemma_module_key(i);
    lemma_module_key(j);
    assert(name_key("ai"@) == (2int, 'a', 'i'));
    assert(name_key("mall"@) == (4int, 'm', 'l'));
    let id = module_table()[i].0.0;
    if id == "ai"@ {
        assert(module_key_at(i) == (2int, 'a', 'i'));
    }
    if id == "mall"@ {
        assert(module_key_at(i) == (4int, 'm', 'l'));
    }
    if i != j && id == module_table()[j].0.0 {
        assert(module_key_at(i) == module_key_at(j));
    }
    let k = if i == 0 {
        1
    } else if i == 1 {
        0
    } else {
        i
    };
    assert(module_table()[k].0.0 == selectable_modules()[i]);
    if i == 1 {
        assert(module_table()[0].0.0 == module_table()[1].1[0]);
    } else if i == 6 {
        assert(module_table()[1].0.0 == module_table()[6].1[0]);
        assert(module_table()[2].0.0 == module_table()[6].1[1]);
        assert(module_table()[4].0.0 == module_table()[6].1[2]);
    } else if i > 1 {
        assert(module_table()[1].0.0 == module_table()[i].1[0]);
    }
}

/// The name keys of the front ends, in table order.
spec fn frontend_key_at(k: int) -> (int, char, char) {
    if k == 0 {
        (10int, 'a', '3')
    } else if k == 1 {
        (10int, 'a', 'n')
    } else if k == 2 {
        (10int, 'a', '2')
    } else if k == 3 {
        (12int, 'a', 'p')
    } else if k == 4 {
        (11int, 'm', 'p')
    } else {
        (7int, 'g', 'w')
    }
}

/// The name keys of the templates, in table order.
spec fn template_key_at(k: int) -> (int, char, char) {
    if k == 0 {
        (13int, 'r', 'o')
    } else if k == 1 {
        (11int, 'y', 'd')
    } else if k == 2 {
        (19int, 'y', '3')
    } else if k == 3 {
        (19int, 'y', 'n')
    } else if k == 4 {
        (19int, 'y', '2')
    } else if k == 5 {
        (21int, 'y', 'p')
    } else if k == 6 {
        (17int, 'y', 'p')
    } else {
        (16int, 'y', 'w')
    }
}

proof fn lemma_frontend_key(k: int)
    requires
        0 <= k < frontend_table().len(),
    ensures
        name_key(frontend_table()[k].0) == frontend_key_at(k),
        frontend_meta_table()[k].0.0 == frontend_table()[k].0,
        frontend_meta_table()[k].1.0 == frontend_table()[k].1,
        frontend_meta_table()[k].1.2 == frontend_table()[k].2,
        frontend_table()[k].1 == template_table()[k + 2].0,
{
    reveal_strlit("admin-vue3");
    reveal_strlit("admin-vben");
    reveal_strlit("admin-vue2");
    reveal_strlit("admin-uniapp");
    reveal_strlit("mall-uniapp");
    reveal_strlit("go-view");
    if k == 0 {
        assert(frontend_table()[k].0 == "admin-vue3"@);
    } else if k == 1 {
        assert(frontend_table()[k].0 == "admin-vben"@);
    } else if k == 2 {
        assert(frontend_table()[k].0 == "admin-vue2"@);
    } else if k == 3 {
        assert(frontend_table()[k].0 == "admin-uniapp"@);
    } else if k == 4 {
        assert(frontend_table()[k].0 == "mall-uniapp"@);
    } else if k == 5 {
        assert(frontend_table()[k].0 == "go-view"@);
    }
}

proof fn lemma_template_key(k: int)
    requires
        0 <= k < template_table().len(),
    ensures
        name_key(template_table()[k].0) == template_key_at(k),
{
    reveal_strlit("ruoyi-vue-pro");
    reveal_strlit("yudao-cloud");
    reveal_strlit("yudao-ui-admin-vue3");
    reveal_strlit("yudao-ui-admin-vben");
    reveal_strlit("yudao-ui-admin-vue2");
    reveal_strlit("yudao-ui-admin-uniapp");
    reveal_strlit("yudao-mall-uniapp");
    reveal_strlit("yudao-ui-go-view");
    if k == 0 {
        assert(template_table()[k].0 == "ruoyi-vue-pro"@);
    } else if k == 1 {
        assert(template_table()[k].0 == "yudao-cloud"@);
    } else if k == 2 {
        assert(template_table()[k].0 == "yudao-ui-admin-vue3"@);
    } else if k == 3 {
        assert(template_table()[k].0 == "yudao-ui-admin-vben"@);
    } else if k == 4 {
        assert(template_table()[k].0 == "yudao-ui-admin-vue2"@);
    } else if k == 5 {
        assert(template_table()[k].0 == "yudao-ui-admin-uniapp"@);
    } else if k == 6 {
        assert(template_table()[k].0 == "yudao-mall-uniapp"@);
    } else if k == 7 {
        assert(template_table()[k].0 == "yudao-ui-go-view"@);
    }
}

/// The front end tables agree: the ids are distinct, the entry that
/// `frontend_source` finds for an id names the template and directory the
/// form shows, that template is a front end template of the catalog, and a
/// front end is modular exactly when it is an admin front end placed in
/// `frontend/admin`.
pub proof fn lemma_frontend_meta_laws(i: int, j: int)
    requires
        0 <= i < frontend_meta_table().len(),
        0 <= j < frontend_meta_table().len(),
    ensures
        ({
            let e = frontend_meta_table()[i];
            &&& frontend_meta_table().len() == frontend_table().len()
            &&& i != j ==> e.0.0 != frontend_meta_table()[j].0.0
            &&& frontend_named(e.0.0) == Some((e.0.0, e.1.0, e.1.2, ()))
            &&& template_named(e.1.0) matches Some(t) && t.0 == e.1.0 && t.1 == "frontend"@
            &&& (e.2 <==> (e.1.1 == "admin"@ && e.1.2 == "admin"@))
        }),
{
    reveal_strlit("admin-vue3");
    reveal_strlit("admin-vben");
    reveal_strlit("admin-vue2");
    reveal_strlit("admin-uniapp");
    reveal_strlit("mall-uniapp");
    reveal_strlit("go-view");
    reveal_strlit("admin");
    reveal_strlit("mall");
    reveal_strlit("dashboard");
    reveal_strlit("frontend");
    lemma_frontend_key(i);
    lemma_frontend_key(j);
    if i != j && frontend_meta_table()[i].0.0 == frontend_meta_table()[j].0.0 {
        assert(frontend_key_at(i) == frontend_key_at(j));
    }
    let id = frontend_table()[i].0;
    assert forall|m: int| 0 <= m < i implies frontend_table()[m].0 != id by {
        lemma_frontend_key(m);
        if frontend_table()[m].0 == id {
            assert(frontend_key_at(m) == frontend_key_at(i));
        }
    }
    lemma_first_index_at(frontend_table(), id, 0, i);
    let name = template_table()[i + 2].0;
    lemma_template_key(i + 2);
    assert forall|m: int| 0 <= m < i + 2 implies template_table()[m].0 != name by {
        lemma_template_key(m);
        if template_table()[m].0 == name {
            assert(template_key_at(m) == template_key_at(i + 2));
        }
    }
    lemma_first_index_at(template_table(), name, 0, i + 2);
    assert(template_table()[i + 2].1 == "frontend"@);
    assert("admin-uniapp"@.len() != "admin"@.len());
    assert("mall"@.len() != "admin"@.len());
    assert("dashboard"@.len() != "admin"@.len());
}

/// The template table is well formed: its names are distinct, the template
/// that `template_source` finds for a name is the entry of that name, and
/// every entry has a GitHub address and a Gitee address of a `.git` repository.
pub proof fn lemma_template_laws(i: int, j: int)
    requires
        0 <= i < template_table().len(),
        0 <= j < template_table().len(),
    ensures
        ({
            let t = template_table()[i];
            &&& i != j ==> t.0 != template_table()[j].0
            &&& template_named(t.0) == Some(t)
            &&& crate::text::starts_with(t.2, "https://github.com/"@)
            &&& crate::text::ends_with(t.2, ".git"@)
            &&& crate::text::starts_with(t.3, "https://gitee.com/"@)
            &&& crate::text::ends_with(t.3, ".git"@)
        }),
{
    reveal_strlit("https://github.com/");
    reveal_strlit("https://gitee.com/");
    reveal_strlit(".git");
    reveal_strlit("https://github.com/YunaiV/ruoyi-vue-pro.git");
    reveal_strlit("https://gitee.com/zhijiantianya/ruoyi-vue-pro.git");
    reveal_strlit("https://github.com/YunaiV/yudao-cloud.git");
    reveal_strlit("https://gitee.com/zhijiantianya/yudao-cloud.git");
    reveal_strlit("https://github.com/yudaocode/yudao-ui-admin-vue3.git");
    reveal_strlit("https://gitee.com/yudaocode/yudao-ui-admin-vue3.git");
    reveal_strlit("https://github.com/yudaocode/yudao-ui-admin-vben.git");
    reveal_strlit("https://gitee.com/yudaocode/yudao-ui-admin-vben.git");
    reveal_strlit("https://github.com/yudaocode/yudao-ui-admin-vue2.git");
    reveal_strlit("https://gitee.com/yudaocode/yudao-ui-admin-vue2.git");
    reveal_strlit("https://github.com/yudaocode/yudao-ui-admin-uniapp.git");
    reveal_strlit("https://gitee.com/yudaocode/yudao-ui-admin-uniapp.git");
    reveal_strlit("https://github.com/yudaocode/yudao-mall-uniapp.git");
    reveal_strlit("https://gitee.com/yudaocode/yudao-mall-uniapp.git");
    reveal_strlit("https://github.com/yudaocode/yudao-ui-go-view.git");
    reveal_strlit("https://gitee.com/yudaocode/yudao-ui-go-view.git");
    lemma_template_key(i);
    lemma_template_key(j);
    if i != j && template_table()[i].0 == template_table()[j].0 {
        assert(template_key_at(i) == template_key_at(j));
    }
    let name = template_table()[i].0;
    assert forall|m: int| 0 <= m < i implies template_table()[m].0 != name by {
        lemma_template_key(m);
        if template_table()[m].0 == name {
            assert(template_key_at(m) == template_key_at(i));
        }
    }
    lemma_first_index_at(template_table(), name, 0, i);
    let t = template_table()[i];
    if i == 0 {
        assert(t.2 == "https://github.com/YunaiV/ruoyi-vue-pro.git"@ && t.3 == "https://gitee.com/zhijiantianya/ruoyi-vue-pro.git"@);
        assert(t.2.subrange(0, 19) =~= "https://github.com/"@);
        assert(t.2.subrange(39, 43) =~= ".git"@);
        assert(t.3.subrange(0, 18) =~= "https://gitee.com/"@);
        assert(t.3.subrange(45, 49) =~= ".git"@);
    } else if i == 1 {
        assert(t.2 == "https://github.com/YunaiV/yudao-cloud.git"@ && t.3 == "https://gitee.com/zhijiantianya/yudao-cloud.git"@);
        assert(t.2.subrange(0, 19) =~= "https://github.com/"@);
        assert(t.2.subrange(37, 41) =~= ".git"@);
        assert(t.3.subrange(0, 18) =~= "https://gitee.com/"@);
        assert(t.3.subrange(43, 47) =~= ".git"@);
    } else if i == 2 {
        assert(t.2 == "https://github.com/yudaocode/yudao-ui-admin-vue3.git"@ && t.3 == "https://gitee.com/yudaocode/yudao-ui-admin-vue3.git"@);
        assert(t.2.subrange(0, 19) =~= "https://github.com/"@);
        assert(t.2.subrange(48, 52) =~= ".git"@);
        assert(t.3.subrange(0, 18) =~= "https://gitee.com/"@);
        assert(t.3.subrange(47, 51) =~= ".git"@);
    } else if i == 3 {
        assert(t.2 == "https://github.com/yudaocode/yudao-ui-admin-vben.git"@ && t.3 == "https://gitee.com/yudaocode/yudao-ui-admin-vben.git"@);
        assert(t.2.subrange(0, 19) =~= "https://github.com/"@);
        assert(t.2.subrange(48, 52) =~= ".git"@);
        assert(t.3.subrange(0, 18) =~= "https://gitee.com/"@);
        assert(t.3.subrange(47, 51) =~= ".git"@);
    } else if i == 4 {
        assert(t.2 == "https://github.com/yudaocode/yudao-ui-admin-vue2.git"@ && t.3 == "https://gitee.com/yudaocode/yudao-ui-admin-vue2.git"@);
        assert(t.2.subrange(0, 19) =~= "https://github.com/"@);
        assert(t.2.subrange(48, 52) =~= ".git"@);
        assert(t.3.subrange(0, 18) =~= "https://gitee.com/"@);
        assert(t.3.subrange(47, 51) =~= ".git"@);
    } else if i == 5 {
        assert(t.2 == "https://github.com/yudaocode/yudao-ui-admin-uniapp.git"@ && t.3 == "https://gitee.com/yudaocode/yudao-ui-admin-uniapp.git"@);
        assert(t.2.subrange(0, 19) =~= "https://github.com/"@);
        assert(t.2.subrange(50, 54) =~= ".git"@);
        assert(t.3.subrange(0, 18) =~= "https://gitee.com/"@);
        assert(t.3.subrange(49, 53) =~= ".git"@);
    } else if i == 6 {
        assert(t.2 == "https://github.com/yudaocode/yudao-mall-uniapp.git"@ && t.3 == "https://gitee.com/yudaocode/yudao-mall-uniapp.git"@);
        assert(t.2.subrange(0, 19) =~= "https://github.com/"@);
        assert(t.2.subrange(46, 50) =~= ".git"@);
        assert(t.3.subrange(0, 18) =~= "https://gitee.com/"@);
        assert(t.3.subrange(45, 49) =~= ".git"@);
    } else if i == 7 {
        assert(t.2 == "https://github.com/yudaocode/yudao-ui-go-view.git"@ && t.3 == "https://gitee.com/yudaocode/yudao-ui-go-view.git"@);
        assert(t.2.subrange(0, 19) =~= "https://github.com/"@);
        assert(t.2.subrange(45, 49) =~= ".git"@);
        assert(t.3.subrange(0, 18) =~= "https://gitee.com/"@);
        assert(t.3.subrange(44, 48) =~= ".git"@);
    }
}

} // verus!


verus! {

/// The services and Maven artifacts of every business module follow its
/// metadata: a module without sub-service names runs the one server
/// `yudao-module-<id>-server`, and a composite one runs, in the order the
/// form lists its sub-services (and their default ports), the servers
/// `yudao-module-<sub>-server`; selecting a module enables the server
/// artifact `yudao-module-<id>` (for `iot` `yudao-module-iot-biz`), and for a
/// composite module the artifact `yudao-module-<sub>` of every sub-service.
pub proof fn lemma_module_services_follow_meta(i: int)
    requires
        0 <= i < module_table().len(),
    ensures
        ({
            let m = module_table()[i];
            let id = m.0.0;
            &&& module_servers(id).len() == m.3.len()
            &&& (m.4 is None ==> module_servers(id) == seq!["yudao-module-"@ + id + "-server"@])
            &&& (m.4 matches Some(subs) ==> module_servers(id).len() == subs.len() && forall|k: int|
                0 <= k < subs.len() ==> #[trigger] module_servers(id)[k] == "yudao-module-"@ + subs[k]
                    + "-server"@)
            &&& (m.4 is None && id != "iot"@ ==> server_artifacts(id) == seq!["yudao-module-"@ + id])
            &&& (id == "iot"@ ==> server_artifacts(id) == seq!["yudao-module-"@ + id + "-biz"@])
            &&& (m.4 matches Some(subs) ==> server_artifacts(id).len() == subs.len() && forall|k: int|
                0 <= k < subs.len() ==> server_artifacts(id).contains("yudao-module-"@ + #[trigger] subs[k]))
        }),
{
    reveal_strlit("-biz");
    reveal_strlit("-server");
    reveal_strlit("ai");
    reveal_strlit("bpm");
    reveal_strlit("crm");
    reveal_strlit("erp");
    reveal_strlit("infra");
    reveal_strlit("iot");
    reveal_strlit("mall");
    reveal_strlit("member");
    reveal_strlit("mes");
    reveal_strlit("mp");
    reveal_strlit("pay");
    reveal_strlit("product");
    reveal_strlit("promotion");
    reveal_strlit("report");
    reveal_strlit("statistics");
    reveal_strlit("system");
    reveal_strlit("trade");
    reveal_strlit("yudao-module-");
    reveal_strlit("yudao-module-ai");
    reveal_strlit("yudao-module-ai-server");
    reveal_strlit("yudao-module-bpm");
    reveal_strlit("yudao-module-bpm-server");
    reveal_strlit("yudao-module-crm");
    reveal_strlit("yudao-module-crm-server");
    reveal_strlit("yudao-module-erp");
    reveal_strlit("yudao-module-erp-server");
    reveal_strlit("yudao-module-infra");
    reveal_strlit("yudao-module-infra-server");
    reveal_strlit("yudao-module-iot-biz");
    reveal_strlit("yudao-module-iot-server");
    reveal_strlit("yudao-module-member");
    reveal_strlit("yudao-module-member-server");
    reveal_strlit("yudao-module-mes");
    reveal_strlit("yudao-module-mes-server");
    reveal_strlit("yudao-module-mp");
    reveal_strlit("yudao-module-mp-server");
    reveal_strlit("yudao-module-pay");
    reveal_strlit("yudao-module-pay-server");
    reveal_strlit("yudao-module-product");
    reveal_strlit("yudao-module-product-server");
    reveal_strlit("yudao-module-promotion");
    reveal_strlit("yudao-module-promotion-server");
    reveal_strlit("yudao-module-report");
    reveal_strlit("yudao-module-report-server");
    reveal_strlit("yudao-module-statistics");
    reveal_strlit("yudao-module-statistics-server");
    reveal_strlit("yudao-module-system");
    reveal_strlit("yudao-module-system-server");
    reveal_strlit("yudao-module-trade");
    reveal_strlit("yudao-module-trade-server");
    lemma_module_meta_matches_plan(i);
    lemma_module_meta_laws(i, i);
    let m = module_table()[i];
    let id = m.0.0;
    let subs = if m.4 is Some { m.4->0 } else { Seq::empty() };
    if i == 0 {
        assert(id == "infra"@);
        assert("yudao-module-"@ + id + "-server"@ =~= "yudao-module-infra-server"@);
        assert(module_servers(id) =~= seq!["yudao-module-"@ + id + "-server"@]);
        assert("yudao-module-"@ + id =~= "yudao-module-infra"@);
        assert(server_artifacts(id) =~= seq!["yudao-module-"@ + id]);
    } else if i == 1 {
        assert(id == "system"@);
        assert("yudao-module-"@ + id + "-server"@ =~= "yudao-module-system-server"@);
        assert(module_servers(id) =~= seq!["yudao-module-"@ + id + "-server"@]);
        assert("yudao-module-"@ + id =~= "yudao-module-system"@);
        assert(server_artifacts(id) =~= seq!["yudao-module-"@ + id]);
    } else if i == 2 {
        assert(id == "member"@);
        assert("member"@[0] != "system"@[0]);
        assert("yudao-module-"@ + id + "-server"@ =~= "yudao-module-member-server"@);
        assert(module_servers(id) =~= seq!["yudao-module-"@ + id + "-server"@]);
        assert("yudao-module-"@ + id =~= "yudao-module-member"@);
        assert(server_artifacts(id) =~= seq!["yudao-module-"@ + id]);
    } else if i == 3 {
        assert(id == "bpm"@);
        assert("bpm"@[0] != "iot"@[0]);
        assert("yudao-module-"@ + id + "-server"@ =~= "yudao-module-bpm-server"@);
        assert(module_servers(id) =~= seq!["yudao-module-"@ + id + "-server"@]);
        assert("yudao-module-"@ + id =~= "yudao-module-bpm"@);
        assert(server_artifacts(id) =~= seq!["yudao-module-"@ + id]);
    } else if i == 4 {
        assert(id == "pay"@);
        assert("pay"@[0] != "iot"@[0]);
        assert("pay"@[0] != "bpm"@[0]);
        assert("yudao-module-"@ + id + "-server"@ =~= "yudao-module-pay-server"@);
        assert(module_servers(id) =~= seq!["yudao-module-"@ + id + "-server"@]);
        assert("yudao-module-"@ + id =~= "yudao-module-pay"@);
        assert(server_artifacts(id) =~= seq!["yudao-module-"@ + id]);
    } else if i == 5 {
        assert(id == "mp"@);
        assert("yudao-module-"@ + id + "-server"@ =~= "yudao-module-mp-server"@);
        assert(module_servers(id) =~= seq!["yudao-module-"@ + id + "-server"@]);
        assert("yudao-module-"@ + id =~= "yudao-module-mp"@);
        assert(server_artifacts(id) =~= seq!["yudao-module-"@ + id]);
    } else if i == 6 {
        assert(id == "mall"@);
        assert(subs[0] == "product"@);
        assert(module_servers(id)[0] =~= "yudao-module-"@ + "product"@ + "-server"@);
        assert(server_artifacts(id)[0] =~= "yudao-module-"@ + "product"@);
        assert(subs[1] == "trade"@);
        assert(module_servers(id)[1] =~= "yudao-module-"@ + "trade"@ + "-server"@);
        assert(server_artifacts(id)[2] =~= "yudao-module-"@ + "trade"@);
        assert(subs[2] == "promotion"@);
        assert(module_servers(id)[2] =~= "yudao-module-"@ + "promotion"@ + "-server"@);
        assert(server_artifacts(id)[1] =~= "yudao-module-"@ + "promotion"@);
        assert(subs[3] == "statistics"@);
        assert(module_servers(id)[3] =~= "yudao-module-"@ + "statistics"@ + "-server"@);
        assert(server_artifacts(id)[3] =~= "yudao-module-"@ + "statistics"@);
    } else if i == 7 {
        assert(id == "crm"@);
        assert("crm"@[0] != "iot"@[0]);
        assert("crm"@[0] != "bpm"@[0]);
        assert("crm"@[0] != "pay"@[0]);
        assert("yudao-module-"@ + id + "-server"@ =~= "yudao-module-crm-server"@);
        assert(module_servers(id) =~= seq!["yudao-module-"@ + id + "-server"@]);
        assert("yudao-module-"@ + id =~= "yudao-module-crm"@);
        assert(server_artifacts(id) =~= seq!["yudao-module-"@ + id]);
    } else if i == 8 {
        assert(id == "erp"@);
        assert("erp"@[0] != "iot"@[0]);
        assert("erp"@[0] != "bpm"@[0]);
        assert("erp"@[0] != "pay"@[0]);
        assert("erp"@[0] != "crm"@[0]);
        assert("yudao-module-"@ + id + "-server"@ =~= "yudao-module-erp-server"@);
        assert(module_servers(id) =~= seq!["yudao-module-"@ + id + "-server"@]);
        assert("yudao-module-"@ + id =~= "yudao-module-erp"@);
        assert(server_artifacts(id) =~= seq!["yudao-module-"@ + id]);
    } else if i == 9 {
        assert(id == "iot"@);
        assert("yudao-module-"@ + id + "-server"@ =~= "yudao-module-iot-server"@);
        assert(module_servers(id) =~= seq!["yudao-module-"@ + id + "-server"@]);
        assert("yudao-module-"@ + id + "-biz"@ =~= "yudao-module-iot-biz"@);
        assert(server_artifacts(id) =~= seq!["yudao-module-"@ + id + "-biz"@]);
    } else if i == 10 {
        assert(id == "mes"@);
        assert("mes"@[0] != "iot"@[0]);
        assert("mes"@[0] != "bpm"@[0]);
        assert("mes"@[0] != "pay"@[0]);
        assert("mes"@[0] != "crm"@[0]);
        assert("mes"@[0] != "erp"@[0]);
        assert("yudao-module-"@ + id + "-server"@ =~= "yudao-module-mes-server"@);
        assert(module_servers(id) =~= seq!["yudao-module-"@ + id + "-server"@]);
        assert("yudao-module-"@ + id =~= "yudao-module-mes"@);
        assert(server_artifacts(id) =~= seq!["yudao-module-"@ + id]);
    } else if i == 11 {
        assert(id == "report"@);
        assert("report"@[0] != "system"@[0]);
        assert("report"@[0] != "member"@[0]);
        assert("yudao-module-"@ + id + "-server"@ =~= "yudao-module-report-server"@);
        assert(module_servers(id) =~= seq!["yudao-module-"@ + id + "-server"@]);
        assert("yudao-module-"@ + id =~= "yudao-module-report"@);
        assert(server_artifacts(id) =~= seq!["yudao-module-"@ + id]);
    } else if i == 12 {
        assert(id == "ai"@);
        assert("ai"@[0] != "mp"@[0]);
        assert("yudao-module-"@ + id + "-server"@ =~= "yudao-module-ai-server"@);
        assert(module_servers(id) =~= seq!["yudao-module-"@ + id + "-server"@]);
        assert("yudao-module-"@ + id =~= "yudao-module-ai"@);
        assert(server_artifacts(id) =~= seq!["yudao-module-"@ + id]);
    }
}

} // verus!
