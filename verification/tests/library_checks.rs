use yudao_scaffold::archive::{
    archive_url_candidates, backend_template_branch, choose_template_origin, download_candidates,
    template_cache_dir_name, template_source_urls, TemplateOrigin,
};
use yudao_scaffold::catalog::{
    default_microservice_ports, frontend_meta, frontend_source, microservice_resource_dirs,
    microservice_servers, module_meta,
    module_server_artifacts, selectable_module_names, template_source, templates,
    vben_variant_names,
};
use yudao_scaffold::config::{
    configure_microservice_port, set_docker_expose, set_tenant_enabled,
    set_tenant_enabled_if_present, set_top_level_server_port, set_xml_tag_value,
};
use yudao_scaffold::download::{
    check_download, commit_failure_message, download_failure_message, extract_failure_message,
    scaffold_readme, DownloadAction, DownloadAttempts, DownloadResponse, ExtractFailure,
};
use yudao_scaffold::error::ScaffoldError;
use yudao_scaffold::paths::{
    file_extension, java_package_dirs, java_package_path, join, package_is_unchanged, path_string, runtime_paths, should_rewrite_file,
    skip_when_copying, skip_when_finding_java_roots, skip_when_rewriting, strip_first_component,
    PathComponent,
};
use yudao_scaffold::pom::{activate_root_modules, activate_server_dependencies};
use yudao_scaffold::project::{
    check_module_selection, check_output_dir, customize_backend_tree, customize_frontend_tree,
    guard_removable_output_dir, is_unselected_module_dir, prune_vben_variants, rewrite_text,
    selected_templates,
};
use yudao_scaffold::settings::{
    configure_backend_settings, configure_microservice_settings, monolith_port_profiles,
    ports_for_module, BackendSettings, ScaffoldAnswers,
};
use yudao_scaffold::sql::{
    check_super_admin_sql_updated, configure_super_admin, replace_super_admin_insert,
    rewrite_super_admin_sql_text, sql_string_range, verify_super_admin_password,
};

fn strings(items: &[&str]) -> Vec<String> {
    items.iter().map(|s| s.to_string()).collect()
}

fn answers(backend: &str, modules: &[&str]) -> ScaffoldAnswers {
    ScaffoldAnswers {
        project_name: "shop".to_string(),
        display_name: "Shop".to_string(),
        output_dir: "/tmp/out/shop".to_string(),
        backend: backend.to_string(),
        jdk_version: "17".to_string(),
        group_id: "com.acme".to_string(),
        artifact_id: "shop-server".to_string(),
        version: "1.0.0".to_string(),
        base_package: "com.acme.shop".to_string(),
        modules: strings(modules),
        frontends: Vec::new(),
        monolith_port: Some(48080),
        gateway_port: Some(48080),
        microservice_ports: Vec::new(),
        super_admin_username: "admin".to_string(),
        super_admin_password: "secret".to_string(),
        pull_existing: true,
        force: None,
        tenant_enabled: true,
        vben_variant: None,
    }
}

// ---------------------------------------------------------------------------
// XML, YAML and Dockerfile edits
// ---------------------------------------------------------------------------

#[test]
fn xml_tag_value_is_replaced_and_read_back() {
    let out = set_xml_tag_value("<p><revision>old</revision><revision>x</revision></p>", "revision", "9.9").unwrap();
    assert_eq!(out, "<p><revision>9.9</revision><revision>x</revision></p>");
    let empty = set_xml_tag_value("<revision></revision>", "revision", "1").unwrap();
    assert_eq!(empty, "<revision>1</revision>");
}

#[test]
fn xml_tag_errors_name_the_missing_tag_side() {
    let open = set_xml_tag_value("<p></p>", "revision", "1").unwrap_err();
    assert!(matches!(&open, ScaffoldError::MissingXmlOpenTag(t) if t == "revision"));
    assert_eq!(open.message("/x/pom.xml"), "/x/pom.xml 缺少 <revision>");
    let close = set_xml_tag_value("<revision>1", "revision", "2").unwrap_err();
    assert!(matches!(&close, ScaffoldError::MissingXmlCloseTag(t) if t == "revision"));
    assert_eq!(close.message("/x/pom.xml"), "/x/pom.xml 缺少 </revision>");
    assert!(matches!(
        set_xml_tag_value("</revision><revision>1", "revision", "2"),
        Err(ScaffoldError::MissingXmlCloseTag(_))
    ));
}

#[test]
fn server_port_keeps_indentation_and_other_lines() {
    let text = "spring:\n  name: a\nserver:\n\n    port: 1 # old\n    ssl: false\nurl: http://localhost:48080/x\nother: 127.0.0.1:48080";
    let out = set_top_level_server_port(text, 8080).unwrap();
    assert_eq!(
        out,
        "spring:\n  name: a\nserver:\n\n    port: 8080\n    ssl: false\nurl: http://localhost:8080/x\nother: 127.0.0.1:8080"
    );
    let lines: Vec<&str> = out.lines().collect();
    assert_eq!(lines[4], "    port: 8080");
    assert_eq!(lines[0], "spring:");
    assert_eq!(lines[5], "    ssl: false");
}

#[test]
fn server_port_ignores_nested_and_later_port_lines() {
    assert!(matches!(
        set_top_level_server_port("spring:\n  server:\n    port: 1\n", 2),
        Err(ScaffoldError::MissingTopLevelServer)
    ));
    assert!(matches!(
        set_top_level_server_port("server:\nspring:\n  port: 1\n", 2),
        Err(ScaffoldError::MissingServerPort)
    ));
    assert!(matches!(
        set_top_level_server_port("  server:\n    port: 1\n", 2),
        Err(ScaffoldError::MissingTopLevelServer)
    ));
}

#[test]
fn docker_expose_rewrites_only_the_first_expose_line() {
    let out = set_docker_expose("FROM a\n  EXPOSE 1\nEXPOSE 2", 9).unwrap();
    assert_eq!(out, "FROM a\nEXPOSE 9\nEXPOSE 2");
    assert_eq!(out.lines().collect::<Vec<_>>(), vec!["FROM a", "EXPOSE 9", "EXPOSE 2"]);
    assert!(matches!(
        set_docker_expose("FROM a\nRUN x\n", 9),
        Err(ScaffoldError::MissingDockerExpose)
    ));
}

#[test]
fn microservice_port_reports_the_first_failing_file() {
    let yaml = "server:\n  port: 1\n";
    assert!(matches!(
        configure_microservice_port(yaml, "FROM x\n", 5),
        Err(ScaffoldError::MissingDockerExpose)
    ));
    assert!(matches!(
        configure_microservice_port("name: a\n", "FROM x\n", 5),
        Err(ScaffoldError::MissingTopLevelServer)
    ));
    let (y, d) = configure_microservice_port(yaml, "EXPOSE 1\n", 5).unwrap();
    assert_eq!(y, "server:\n  port: 5\n");
    assert_eq!(d, "EXPOSE 5\n");
}

#[test]
fn tenant_switch_reports_missing_section_and_enable_line() {
    assert!(matches!(
        set_tenant_enabled("spring:\n  a: b\n", true),
        Err(ScaffoldError::MissingTenantSection)
    ));
    assert!(matches!(set_tenant_enabled_if_present("spring:\n  a: b\n", true), Ok(None)));
    assert!(matches!(
        set_tenant_enabled("yudao:\n  tenant:\n    ignore-urls: x\nother: 1\n", true),
        Err(ScaffoldError::MissingTenantEnable)
    ));
    let out = set_tenant_enabled("yudao:\n  # comment\n  tenant:\n    enable: false\n", true).unwrap();
    assert_eq!(out, "yudao:\n  # comment\n  tenant:\n    enable: true\n");
    assert_eq!(
        out.lines().collect::<Vec<_>>(),
        vec!["yudao:", "  # comment", "  tenant:", "    enable: true"]
    );
    let present = set_tenant_enabled_if_present("yudao:\n  tenant:\n      enable: true#c", false).unwrap();
    assert_eq!(present, Some("yudao:\n  tenant:\n      enable: false #c".to_string()));
}

// ---------------------------------------------------------------------------
// Maven POMs
// ---------------------------------------------------------------------------

#[test]
fn root_pom_activation_reports_no_change() {
    let selected = strings(&["system", "infra"]);
    assert_eq!(activate_root_modules("<module>yudao-module-system</module>\n", &selected), None);
    let out = activate_root_modules("a\n<!-- <module>yudao-module-infra</module> -->", &selected).unwrap();
    assert_eq!(out, "a\n <module>yudao-module-infra</module> ");
    assert_eq!(out.lines().collect::<Vec<_>>(), vec!["a", " <module>yudao-module-infra</module> "]);
}

#[test]
fn server_pom_activation_uncomments_whole_dependency_blocks() {
    let selected = strings(&["system", "infra", "mall"]);
    let pom = "<!--<dependency>-->\n<!--  <artifactId>yudao-module-trade</artifactId>-->\n<!--</dependency>-->\n<!--<dependency>-->\n<!--  <artifactId>yudao-module-crm</artifactId>-->\n<!--</dependency>-->\n";
    let out = activate_server_dependencies(pom, &selected).unwrap();
    assert_eq!(
        out,
        "<dependency>\n  <artifactId>yudao-module-trade</artifactId>\n</dependency>\n<!--<dependency>-->\n<!--  <artifactId>yudao-module-crm</artifactId>-->\n<!--</dependency>-->\n"
    );
    assert_eq!(out.lines().count(), pom.lines().count());
    assert_eq!(out.lines().nth(4), pom.lines().nth(4));
    assert_eq!(activate_server_dependencies("<dependency>\n</dependency>\n", &selected), None);
}

// ---------------------------------------------------------------------------
// SQL and the super administrator
// ---------------------------------------------------------------------------

#[test]
fn sql_string_range_skips_doubled_quotes() {
    assert_eq!(sql_string_range("a 'it''s' b", 0), Some((3, 8)));
    assert_eq!(sql_string_range("a 'x' 'y'", 5), Some((7, 8)));
    assert_eq!(sql_string_range("a 'open", 0), None);
    assert_eq!(sql_string_range("no quotes", 0), None);
    let wide = "注释 'a''b' x";
    let (a, b) = sql_string_range(wide, 0).unwrap();
    assert_eq!((a, b), (8, 12));
    assert_eq!(&wide[a..b], "a''b");
    assert_eq!(sql_string_range(wide, wide.len()), None);
}

#[test]
fn super_admin_insert_rewrites_the_first_two_literals() {
    let line = "INSERT INTO `system_users` (`id`, `username`, `password`) VALUES (1, 'admin', '$2a$old', 'x');";
    assert_eq!(
        replace_super_admin_insert(line, "root", "HASH").unwrap(),
        "INSERT INTO `system_users` (`id`, `username`, `password`) VALUES (1, 'root', 'HASH', 'x');"
    );
    let compact = "insert into system_users values(1,'a','b');";
    assert_eq!(
        replace_super_admin_insert(compact, "o''b", "h").unwrap(),
        "insert into system_users values(1,'o''b','h');"
    );
    assert_eq!(replace_super_admin_insert("INSERT INTO system_role VALUES (1, 'a', 'b');", "x", "y"), None);
    assert_eq!(replace_super_admin_insert("INSERT INTO system_users VALUES (2, 'a', 'b');", "x", "y"), None);
    assert_eq!(rewrite_super_admin_sql_text("SELECT 1;\n", "x", "y"), None);
}

#[test]
fn super_admin_credentials_escape_and_hash() {
    assert!(matches!(
        configure_super_admin("bad\nname", "pw"),
        Err(ScaffoldError::UsernameHasLineBreak)
    ));
    assert!(matches!(
        configure_super_admin("bad\rname", "pw"),
        Err(ScaffoldError::UsernameHasLineBreak)
    ));
    let c = configure_super_admin("o'brien", "pw").unwrap();
    assert!(matches!(configure_super_admin("x", "pw"), Ok(_)));
    assert_eq!(c.escaped_username, "o''brien");
    assert_eq!(c.password_hash.len(), 60);
    assert!(c.password_hash.starts_with("$2b$10$"));
    assert!(bcrypt::verify("pw", &c.password_hash).unwrap());
    assert!(!bcrypt::verify("other", &c.password_hash).unwrap());
    assert!(verify_super_admin_password("pw", &c.password_hash).unwrap());
    assert!(!verify_super_admin_password("", &c.password_hash).unwrap());
    assert!(matches!(
        verify_super_admin_password("pw", "not a hash"),
        Err(ScaffoldError::PasswordHash(_))
    ));
    assert!(matches!(check_super_admin_sql_updated(0), Err(ScaffoldError::MissingSuperAdminInsert)));
    assert!(check_super_admin_sql_updated(2).is_ok());
}

#[test]
fn rewritten_sql_reads_back_the_new_credentials() {
    let c = configure_super_admin("it's", "pw").unwrap();
    let sql = "-- users\nINSERT INTO system_users VALUES (1, 'admin', 'old');\n";
    let out = rewrite_super_admin_sql_text(sql, &c.escaped_username, &c.password_hash).unwrap();
    let line = out.lines().nth(1).unwrap();
    let (us, ue) = sql_string_range(line, line.find("VALUES").unwrap()).unwrap();
    assert_eq!(&line[us..ue], "it''s");
    let (ps, pe) = sql_string_range(line, ue + 1).unwrap();
    assert_eq!(&line[ps..pe], c.password_hash);
    assert!(out.ends_with('\n'));
}

// ---------------------------------------------------------------------------
// Archives and downloads
// ---------------------------------------------------------------------------

#[test]
fn unsupported_jdk_is_refused() {
    match backend_template_branch("11") {
        Err(ScaffoldError::UnsupportedJdkVersion(v)) => assert_eq!(v, "11"),
        _ => panic!("expected an unsupported JDK error"),
    }
}

#[test]
fn cache_dir_names_follow_the_branch() {
    assert_eq!(template_cache_dir_name("t", None), "t");
    assert_eq!(template_cache_dir_name("t", Some("master")), "t");
    assert_eq!(template_cache_dir_name("t", Some("feature")), "t-feature");
    assert_eq!(template_cache_dir_name("t", Some("master-x")), "t-x");
    let jdk8 = template_cache_dir_name("ruoyi-vue-pro", Some(backend_template_branch("8").unwrap()));
    let jdk17 = template_cache_dir_name("ruoyi-vue-pro", Some(backend_template_branch("17").unwrap()));
    assert_eq!(jdk8, "ruoyi-vue-pro");
    assert_eq!(jdk17, "ruoyi-vue-pro-jdk17");
    assert_ne!(jdk8, jdk17);
}

#[test]
fn archive_candidates_for_zip_and_unknown_hosts() {
    assert_eq!(
        archive_url_candidates("  https://example.com/a.zip  ", None),
        vec!["https://example.com/a.zip"]
    );
    assert!(archive_url_candidates("https://example.com/repo.git", None).is_empty());
    assert_eq!(
        archive_url_candidates("https://github.com/a/b/", Some("dev")),
        vec!["https://github.com/a/b/archive/refs/heads/dev.zip"]
    );
}

#[test]
fn source_urls_follow_mirror_and_override() {
    let t = template_source("yudao-cloud").unwrap();
    assert_eq!(
        template_source_urls(&t, None, "github"),
        vec![t.github.to_string(), t.gitee.to_string()]
    );
    assert_eq!(
        template_source_urls(&t, None, "gitee"),
        vec![t.gitee.to_string(), t.github.to_string()]
    );
    assert_eq!(template_source_urls(&t, Some("https://x/y.zip"), "github"), vec!["https://x/y.zip"]);
    let urls = template_source_urls(&t, None, "gitee");
    assert_eq!(
        download_candidates(&urls, Some("master-jdk17")),
        vec![
            "https://gitee.com/zhijiantianya/yudao-cloud/repository/archive/master-jdk17.zip",
            "https://github.com/YunaiV/yudao-cloud/archive/refs/heads/master-jdk17.zip",
        ]
    );
}

#[test]
fn template_origin_prefers_local_then_cache() {
    assert!(matches!(choose_template_origin(true, false, false, false), TemplateOrigin::Local));
    assert!(matches!(choose_template_origin(false, true, true, true), TemplateOrigin::Cache));
    assert!(matches!(
        choose_template_origin(false, false, true, true),
        TemplateOrigin::Download { incomplete_cache: true }
    ));
    assert!(matches!(
        choose_template_origin(false, true, false, false),
        TemplateOrigin::Download { incomplete_cache: false }
    ));
}

#[test]
fn download_messages_for_each_failure() {
    let u = "http://h/a.zip";
    assert_eq!(
        check_download(u, &DownloadResponse::SendFailed("timeout".to_string())).unwrap_err(),
        "http://h/a.zip 下载失败: timeout"
    );
    assert_eq!(
        check_download(u, &DownloadResponse::Status("404 Not Found".to_string())).unwrap_err(),
        "http://h/a.zip 返回 HTTP 404 Not Found"
    );
    assert_eq!(
        check_download(u, &DownloadResponse::ReadFailed("reset".to_string())).unwrap_err(),
        "http://h/a.zip 读取响应失败: reset"
    );
    assert_eq!(
        check_download(u, &DownloadResponse::Body { content_type: None, bytes: vec![b'P', b'K'] })
            .unwrap_err(),
        "http://h/a.zip 返回的不是 ZIP（Content-Type: 未知，2 字节）"
    );
    assert_eq!(
        extract_failure_message(u, &ExtractFailure::Failed("bad".to_string())),
        "http://h/a.zip 解压失败: bad"
    );
    assert_eq!(
        extract_failure_message(u, &ExtractFailure::TaskFailed("panic".to_string())),
        "http://h/a.zip 解压任务失败: panic"
    );
    assert_eq!(
        download_failure_message(&strings(&["a", "b"])),
        "模板下载失败: a；b"
    );
    assert_eq!(download_failure_message(&Vec::new()), "模板下载失败: ");
}

#[test]
fn download_attempts_give_up_with_every_failure_in_order() {
    let mut a = DownloadAttempts::new(strings(&["u1", "u2"]));
    let DownloadAction::Fetch(u1) = a.next_action() else { panic!("u1 first") };
    assert_eq!(u1, "u1");
    assert!(!a.record_response(&u1, &DownloadResponse::Status("500 Internal Server Error".to_string())));
    let DownloadAction::Fetch(u2) = a.next_action() else { panic!("u2 second") };
    assert_eq!(u2, "u2");
    let zip = DownloadResponse::Body { content_type: None, bytes: b"PK\x05\x06".to_vec() };
    assert!(a.record_response(&u2, &zip));
    a.record_extract_failure(&u2, &ExtractFailure::Failed("bad entry".to_string()));
    match a.next_action() {
        DownloadAction::GiveUp(m) => assert_eq!(
            m,
            "模板下载失败: u1 返回 HTTP 500 Internal Server Error；u2 解压失败: bad entry"
        ),
        DownloadAction::Fetch(_) => panic!("no candidate is left"),
    }
    match a.next_action() {
        DownloadAction::GiveUp(_) => {}
        DownloadAction::Fetch(_) => panic!("a candidate is never tried twice"),
    }
    let mut none = DownloadAttempts::new(Vec::new());
    assert!(matches!(none.next_action(), DownloadAction::GiveUp(m) if m == "模板下载失败: "));
}

#[test]
fn commit_and_readme_texts() {
    assert_eq!(commit_failure_message("e1", None), "提交生成目录失败: e1");
    assert_eq!(
        commit_failure_message("e1", Some("e2")),
        "提交生成目录失败: e1；恢复原输出目录也失败: e2"
    );
    let readme = scaffold_readme("Shop", "{}");
    assert!(readme.starts_with("# Shop\n\n由 yudao-scaffold-ui 生成。"));
    assert!(readme.ends_with("```json\n{}\n```\n"));
}

// ---------------------------------------------------------------------------
// Paths
// ---------------------------------------------------------------------------

#[test]
fn runtime_paths_default_workspace() {
    let p = runtime_paths("/home/u", None);
    assert_eq!(p.home_dir, "/home/u");
    assert_eq!(p.workspace, "/home/u/yudao-scaffold-workspace");
    assert_eq!(p.cache_dir, "/home/u/.yudao-scaffold-ui/templates");
    assert_eq!(runtime_paths("/home/u/", Some("  ".to_string())).workspace, "/home/u/yudao-scaffold-workspace");
    assert_eq!(runtime_paths("/home/u", Some("/w".to_string())).workspace, "/w");
}

#[test]
fn joins_and_prints_paths() {
    assert_eq!(join("a", "b"), "a/b");
    assert_eq!(join("a/", "b"), "a/b");
    assert_eq!(join("", "b"), "b");
    assert_eq!(join("a\\", "b"), "a\\/b");
    for (a, b) in [("a", "b"), ("a/", "b"), ("a\\", "b"), ("/home/u", ".yudao-scaffold-ui")] {
        assert_eq!(join(a, b), std::path::Path::new(a).join(b).to_string_lossy());
    }
    assert_eq!(path_string("C:\\x\\y"), "C:/x/y");
}

#[test]
fn archive_entries_lose_their_root() {
    let cs = vec![
        PathComponent::Normal("repo-master".to_string()),
        PathComponent::Normal("src".to_string()),
        PathComponent::CurDir,
        PathComponent::Normal("a.txt".to_string()),
    ];
    assert_eq!(strip_first_component(&cs), vec!["src", "a.txt"]);
    assert!(strip_first_component(&vec![PathComponent::Normal("root".to_string())]).is_empty());
    assert!(strip_first_component(&Vec::new()).is_empty());
}

#[test]
fn rewritable_files_match_std_extension() {
    for name in ["A.java", "x.png", "Makefile", ".env", "a.env", "b.tar.gz", "c.", "pom.xml", "x.yaml", "..txt"] {
        let ext = std::path::Path::new(name).extension().and_then(|e| e.to_str()).map(|e| e.to_string());
        assert_eq!(file_extension(name), ext, "{name}");
    }
    assert!(should_rewrite_file("A.java"));
    assert!(should_rewrite_file("a.env"));
    assert!(!should_rewrite_file(".env"));
    assert!(!should_rewrite_file("x.png"));
    assert!(!should_rewrite_file("Makefile"));
}

#[test]
fn skipped_directory_names() {
    assert!(skip_when_copying("node_modules"));
    assert!(!skip_when_copying("dist"));
    assert!(skip_when_rewriting("dist"));
    assert!(skip_when_finding_java_roots("target"));
    assert!(!skip_when_finding_java_roots(".idea"));
}

#[test]
fn package_dirs_split_on_dots() {
    assert_eq!(java_package_dirs("com"), vec!["com"]);
    assert_eq!(java_package_dirs("a.b"), vec!["a", "b"]);
    assert_eq!(java_package_dirs("..a..b."), vec!["a", "b"]);
    assert!(java_package_dirs("").is_empty());
    assert_eq!(java_package_path("cn.example.app"), "cn/example/app");
    let root = std::path::Path::new("/src/main/java");
    assert_eq!(root.join(java_package_path(".a.b")), std::path::Path::new("/a/b"));
    assert_eq!(root.join(java_package_path("a..b.")), root.join("a").join("b"));
    assert!(package_is_unchanged("cn.iocoder.yudao."));
    assert!(!package_is_unchanged(".cn.iocoder.yudao"));
}

// ---------------------------------------------------------------------------
// Catalog
// ---------------------------------------------------------------------------

#[test]
fn catalog_lookups() {
    assert_eq!(templates().len(), 8);
    assert!(template_source("nope").is_none());
    assert_eq!(template_source("ruoyi-vue-pro").unwrap().kind, "backend");
    let f = frontend_source("mall-uniapp").unwrap();
    assert_eq!(f.template, "yudao-mall-uniapp");
    assert_eq!(f.role_suffix, "mall");
    assert!(frontend_source("nope").is_none());
    assert_eq!(selectable_module_names().len(), 13);
    assert_eq!(vben_variant_names(), vec!["antd", "antdv-next", "ele", "naive", "tdesign"]);
    assert_eq!(module_server_artifacts("iot"), vec!["yudao-module-iot-biz"]);
    assert!(module_server_artifacts("wms").is_empty());
    assert_eq!(microservice_servers("member"), vec!["yudao-module-member-server"]);
    assert_eq!(
        microservice_resource_dirs("iot"),
        vec!["yudao-module-iot/yudao-module-iot-server/src/main/resources"]
    );
    assert!(microservice_resource_dirs("wms").is_empty());
}

#[test]
fn module_metadata_matches_the_microservice_plan() {
    let meta = module_meta();
    assert_eq!(meta.len(), 13);
    for m in &meta {
        assert_eq!(m.ports.len(), microservice_servers(m.id).len(), "{}", m.id);
        assert_eq!(m.required, m.id == "system" || m.id == "infra");
    }
    let mall = meta.iter().find(|m| m.id == "mall").unwrap();
    assert_eq!(mall.ports, vec![48100, 48102, 48101, 48103]);
    assert_eq!(mall.subnames.as_ref().unwrap(), &vec!["product", "trade", "promotion", "statistics"]);
    let fronts = frontend_meta();
    assert_eq!(fronts.len(), 6);
    assert_eq!(fronts[3].role_suffix, "admin-uniapp");
}

// ---------------------------------------------------------------------------
// Project decisions
// ---------------------------------------------------------------------------

#[test]
fn module_selection_errors() {
    match check_module_selection(&strings(&["infra"])) {
        Err(ScaffoldError::MissingRequiredModule(m)) => assert_eq!(m, "system"),
        _ => panic!("system is required"),
    }
    match check_module_selection(&strings(&["system"])) {
        Err(ScaffoldError::MissingRequiredModule(m)) => assert_eq!(m, "infra"),
        _ => panic!("infra is required"),
    }
    match check_module_selection(&strings(&["system", "wms", "infra", "xx"])) {
        Err(ScaffoldError::UnknownModule(m)) => assert_eq!(m, "wms"),
        _ => panic!("wms is unknown"),
    }
    assert!(check_module_selection(&strings(&["infra", "system", "mall"])).is_ok());
}

#[test]
fn unselected_module_dirs() {
    let sel = strings(&["system", "infra"]);
    assert!(is_unselected_module_dir("yudao-module-", &sel));
    assert!(!is_unselected_module_dir("yudao-framework", &sel));
    assert!(!is_unselected_module_dir("yudao-module-system", &sel));
}

#[test]
fn unknown_vben_variant_is_refused() {
    match prune_vben_variants("material") {
        Err(ScaffoldError::UnknownVbenVariant(v)) => assert_eq!(v, "material"),
        _ => panic!("unknown variant"),
    }
    let p = prune_vben_variants("antd").unwrap();
    assert_eq!(p.keep, "web-antd");
    assert_eq!(p.remove.len(), 4);
}

#[test]
fn backend_replacements_rename_packages_and_project() {
    let a = answers("monolith", &["system", "infra"]);
    let reps = customize_backend_tree(&a);
    assert_eq!(reps.len(), 7);
    assert_eq!(reps[1], ("cn/iocoder/yudao".to_string(), "com/acme/shop".to_string()));
    assert_eq!(reps[2], ("cn\\iocoder\\yudao".to_string(), "com\\acme\\shop".to_string()));
    let text = "package cn.iocoder.yudao.x;\n<groupId>cn.iocoder.boot</groupId>\n<artifactId>yudao</artifactId>\nruoyi-vue-pro yudao-cloud cn/iocoder/yudao\n";
    assert_eq!(
        rewrite_text(text, &reps),
        "package com.acme.shop.x;\n<groupId>com.acme</groupId>\n<artifactId>shop-server</artifactId>\nshop shop com/acme/shop\n"
    );
    assert_eq!(rewrite_text("nothing here", &reps), "nothing here");
    let empty = vec![("".to_string(), "x".to_string())];
    assert_eq!(rewrite_text("abc", &empty), "abc".replace("", "x"));
    assert_eq!(rewrite_text("", &empty), "x");
}

#[test]
fn frontend_customization_keeps_the_vben_variant() {
    let mut a = answers("monolith", &["system", "infra"]);
    let c = customize_frontend_tree("admin-vben", &a);
    assert_eq!(c.vben_variant.as_deref(), Some("antd"));
    assert_eq!(c.replacements.len(), 2);
    a.vben_variant = Some("ele".to_string());
    assert_eq!(customize_frontend_tree("admin-vben", &a).vben_variant.as_deref(), Some("ele"));
    assert_eq!(customize_frontend_tree("admin-vue3", &a).vben_variant, None);
    assert_eq!(rewrite_text("ruoyi-vue-pro", &c.replacements), "shop");
}

#[test]
fn templates_of_a_run() {
    let mut a = answers("microservice", &["system", "infra"]);
    a.frontends = strings(&["admin-vben", "unknown", "go-view"]);
    assert_eq!(selected_templates(&a), vec!["yudao-cloud", "yudao-ui-admin-vben", "yudao-ui-go-view"]);
    a.backend = "monolith".to_string();
    a.frontends = Vec::new();
    assert_eq!(selected_templates(&a), vec!["ruoyi-vue-pro"]);
}

#[test]
fn output_dir_checks() {
    assert!(matches!(check_output_dir("  ", true, false, false, None), Err(ScaffoldError::EmptyOutputDir)));
    assert!(matches!(check_output_dir("rel", false, false, false, None), Err(ScaffoldError::OutputDirNotAbsolute)));
    assert!(matches!(check_output_dir("/a", true, false, false, None), Ok(false)));
    assert!(matches!(check_output_dir("/a", true, true, true, Some(false)), Err(ScaffoldError::OutputDirExists)));
    assert!(matches!(check_output_dir("/a", true, true, false, Some(true)), Err(ScaffoldError::OutputPathNotDirectory)));
    assert!(matches!(check_output_dir("/a", true, true, true, Some(true)), Ok(true)));
    assert!(matches!(guard_removable_output_dir(false, 5, false), Err(ScaffoldError::OutputDirTooHigh)));
    assert!(matches!(guard_removable_output_dir(true, 3, false), Err(ScaffoldError::OutputDirTooHigh)));
    assert!(matches!(guard_removable_output_dir(true, 4, true), Err(ScaffoldError::OutputDirIsHome)));
    assert!(guard_removable_output_dir(true, 4, false).is_ok());
}

// ---------------------------------------------------------------------------
// Backend settings
// ---------------------------------------------------------------------------

#[test]
fn backend_settings_errors() {
    let mut a = answers("monolith", &["system", "infra"]);
    a.monolith_port = None;
    assert!(matches!(configure_backend_settings(&a), Err(ScaffoldError::MissingMonolithPort)));
    a.backend = "microservice".to_string();
    a.gateway_port = None;
    assert!(matches!(configure_backend_settings(&a), Err(ScaffoldError::MissingGatewayPort)));
    assert!(matches!(configure_microservice_settings(&a), Err(ScaffoldError::MissingGatewayPort)));
    a.backend = "serverless".to_string();
    match configure_backend_settings(&a) {
        Err(ScaffoldError::UnknownBackend(b)) => assert_eq!(b, "serverless"),
        _ => panic!("unknown backend"),
    }
    let mut m = answers("monolith", &["system", "infra"]);
    m.monolith_port = Some(9000);
    m.tenant_enabled = false;
    assert!(matches!(
        configure_backend_settings(&m),
        Ok(BackendSettings::Monolith { port: 9000, tenant_enabled: false })
    ));
    assert_eq!(
        monolith_port_profiles(),
        vec![
            "yudao-server/src/main/resources/application-local.yaml",
            "yudao-server/src/main/resources/application-dev.yaml",
        ]
    );
}

#[test]
fn microservice_plan_with_default_ports() {
    let a = answers("microservice", &["system", "infra", "member"]);
    let plan = configure_microservice_settings(&a).unwrap();
    assert!(plan.failure.is_none());
    let steps: Vec<(String, u16, String, bool)> = plan
        .steps
        .iter()
        .map(|s| (s.server_dir.clone(), s.port, s.owner.clone(), s.edit_tenant))
        .collect();
    assert_eq!(
        steps,
        vec![
            ("yudao-gateway".to_string(), 48080, "gateway".to_string(), false),
            ("yudao-module-system/yudao-module-system-server".to_string(), 48081, "system".to_string(), true),
            ("yudao-module-infra/yudao-module-infra-server".to_string(), 48082, "infra".to_string(), true),
            ("yudao-module-member/yudao-module-member-server".to_string(), 48087, "member".to_string(), true),
        ]
    );
    let mut ports: Vec<u16> = plan.steps.iter().map(|s| s.port).collect();
    ports.sort();
    ports.dedup();
    assert_eq!(ports.len(), plan.steps.len());
}

#[test]
fn microservice_plan_stops_at_a_port_conflict() {
    let mut a = answers("microservice", &["system", "infra", "mall"]);
    a.microservice_ports = vec![("mall".to_string(), vec![1, 2, 48082, 3])];
    let plan = configure_microservice_settings(&a).unwrap();
    assert_eq!(plan.steps.len(), 5);
    assert_eq!(plan.steps[3].owner, "mall[0]");
    assert_eq!(plan.steps[4].owner, "mall[1]");
    match plan.failure {
        Some(ScaffoldError::PortConflict { port, existing, owner }) => {
            assert_eq!(port, 48082);
            assert_eq!(existing, "infra");
            assert_eq!(owner, "mall[2]");
        }
        _ => panic!("expected a conflict"),
    }
}

#[test]
fn microservice_plan_stops_at_a_port_count_mismatch() {
    let mut a = answers("microservice", &["system", "mall", "infra"]);
    a.microservice_ports = vec![("mall".to_string(), vec![1, 2])];
    let plan = configure_microservice_settings(&a).unwrap();
    assert_eq!(plan.steps.len(), 2);
    match plan.failure {
        Some(ScaffoldError::PortCountMismatch { module, expected, actual }) => {
            assert_eq!(module, "mall");
            assert_eq!(expected, 4);
            assert_eq!(actual, 2);
        }
        _ => panic!("expected a mismatch"),
    }
    let mut g = answers("microservice", &["system", "infra"]);
    g.gateway_port = Some(48081);
    match configure_microservice_settings(&g).unwrap().failure {
        Some(ScaffoldError::PortConflict { port: 48081, existing, owner }) => {
            assert_eq!(existing, "gateway");
            assert_eq!(owner, "system");
        }
        _ => panic!("expected a gateway conflict"),
    }
}

#[test]
fn chosen_ports_override_defaults() {
    let map = vec![("member".to_string(), vec![5u16])];
    assert_eq!(ports_for_module(&map, "member"), vec![5]);
    assert_eq!(ports_for_module(&map, "system"), vec![48081]);
    assert!(ports_for_module(&map, "wms").is_empty());
}

#[test]
fn tenant_switch_twice_changes_nothing_more() {
    let text = "yudao:\n  tenant: # t\n    enable: true   # keep\n    ignore: x\n";
    let once = set_tenant_enabled(text, false).unwrap();
    assert_eq!(once, "yudao:\n  tenant: # t\n    enable: false # keep\n    ignore: x\n");
    assert_eq!(set_tenant_enabled(&once, false).unwrap(), once);
    let bare = set_tenant_enabled("yudao:\n  tenant:\n    enable: false", true).unwrap();
    assert_eq!(set_tenant_enabled(&bare, true).unwrap(), bare);
}

#[test]
fn all_modules_with_default_ports_plan_without_conflict() {
    let all: Vec<&str> = selectable_module_names();
    let a = answers("microservice", &all);
    let plan = configure_microservice_settings(&a).unwrap();
    assert!(plan.failure.is_none());
    assert_eq!(plan.steps.len(), 1 + 16);
}

#[test]
fn module_table_is_well_formed() {
    let meta = module_meta();
    let ids: Vec<&str> = meta.iter().map(|m| m.id).collect();
    let mut sorted = ids.clone();
    sorted.sort();
    sorted.dedup();
    assert_eq!(sorted.len(), ids.len());
    let mut selectable = selectable_module_names();
    selectable.sort();
    assert_eq!(sorted, selectable);
    for m in &meta {
        assert_eq!(m.jdk17_only, m.id == "ai");
        assert_eq!(m.composite, m.id == "mall");
        assert_eq!(m.subnames.is_some(), m.composite);
        for d in &m.deps {
            assert!(ids.contains(d));
        }
        assert_eq!(m.ports, default_microservice_ports(m.id));
    }
}

#[test]
fn frontend_tables_agree() {
    for e in frontend_meta() {
        let f = frontend_source(e.id).unwrap();
        assert_eq!(f.template, e.local);
        assert_eq!(f.role_suffix, e.role_suffix);
        let t = template_source(e.local).unwrap();
        assert_eq!(t.kind, "frontend");
        assert_eq!(e.modular, e.role == "admin" && e.role_suffix == "admin");
    }
}

#[test]
fn every_template_has_archive_addresses() {
    let ts = templates();
    for (i, t) in ts.iter().enumerate() {
        for u in ts.iter().skip(i + 1) {
            assert_ne!(t.name, u.name);
        }
        assert_eq!(template_source(t.name).unwrap().github, t.github);
        assert!(t.github.starts_with("https://github.com/") && t.github.ends_with(".git"));
        assert!(t.gitee.starts_with("https://gitee.com/") && t.gitee.ends_with(".git"));
        for b in [None, Some("master"), Some("master-jdk17")] {
            assert!(!archive_url_candidates(t.github, b).is_empty());
            assert!(!archive_url_candidates(t.gitee, b).is_empty());
        }
    }
}

#[test]
fn error_messages_name_the_file_and_values() {
    assert_eq!(
        ScaffoldError::PortCountMismatch { module: "mall".to_string(), expected: 4, actual: 2 }.message(""),
        "模块 mall 需要 4 个端口，但收到 2 个"
    );
    assert_eq!(
        ScaffoldError::PortConflict { port: 48081, existing: "gateway".to_string(), owner: "system".to_string() }
            .message(""),
        "端口 48081 同时分配给 gateway 和 system"
    );
    assert_eq!(ScaffoldError::MissingServerPort.message("/a/b.yaml"), "/a/b.yaml 缺少 server.port 配置");
    assert_eq!(ScaffoldError::MissingSuperAdminInsert.message("/p/sql"), "未在 /p/sql 找到超管初始化 SQL");
    assert_eq!(ScaffoldError::OutputDirTooHigh.message("/a"), "拒绝删除过高层级目录: /a");
    assert_eq!(ScaffoldError::UnsupportedJdkVersion("11".to_string()).message(""), "不支持的 JDK 版本: 11");
    assert_eq!(ScaffoldError::PasswordHash("bad".to_string()).message(""), "生成超管密码哈希失败: bad");
    assert_eq!(ScaffoldError::EmptyOutputDir.message("ignored"), "请选择输出目录");
}
