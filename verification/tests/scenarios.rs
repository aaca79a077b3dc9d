use yudao_scaffold::archive::{archive_url_candidates, backend_template_branch, has_zip_signature, template_cache_dir_name};
use yudao_scaffold::catalog::default_microservice_ports;
use yudao_scaffold::config::{configure_microservice_port, set_tenant_enabled, set_top_level_server_port, set_xml_tag_value};
use yudao_scaffold::download::{
    check_download, download_failure_message, DownloadAction, DownloadAttempts, DownloadResponse,
    StagedOutputDir,
};
use yudao_scaffold::paths::{java_package_dirs, package_is_unchanged};
use yudao_scaffold::pom::{activate_root_modules, activate_server_dependencies};
use yudao_scaffold::project::{is_unselected_module_dir, prune_vben_variants};
use yudao_scaffold::sql::{configure_super_admin, rewrite_super_admin_sql_text, sql_string_range};

fn strings(items: &[&str]) -> Vec<String> {
    items.iter().map(|s| s.to_string()).collect()
}

#[test]
fn recognizes_supported_zip_signatures() {
    assert!(has_zip_signature(b"PK\x03\x04archive"));
    assert!(has_zip_signature(b"PK\x05\x06empty"));
    assert!(has_zip_signature(b"PK\x07\x08spanned"));
    assert!(!has_zip_signature(b"<!doctype html>"));
    assert!(!has_zip_signature(b"PK"));
}

#[test]
fn builds_master_and_main_archive_candidates() {
    assert_eq!(
        archive_url_candidates("https://github.com/example/repo.git", None),
        vec![
            "https://github.com/example/repo/archive/refs/heads/master.zip",
            "https://github.com/example/repo/archive/refs/heads/main.zip",
        ]
    );
    assert_eq!(
        archive_url_candidates("https://gitee.com/example/repo.git", None),
        vec![
            "https://gitee.com/example/repo/repository/archive/master.zip",
            "https://gitee.com/example/repo/repository/archive/main.zip",
        ]
    );
    assert_eq!(
        archive_url_candidates("https://github.com/example/repo.git", Some("master-jdk17")),
        vec!["https://github.com/example/repo/archive/refs/heads/master-jdk17.zip"]
    );
    assert_eq!(backend_template_branch("8").unwrap(), "master");
    assert_eq!(backend_template_branch("17").unwrap(), "master-jdk17");
    assert_eq!(
        template_cache_dir_name("ruoyi-vue-pro", Some("master-jdk17")),
        "ruoyi-vue-pro-jdk17"
    );
}

#[test]
fn keeps_only_system_and_infra_when_they_are_the_only_selection() {
    let selected = strings(&["system", "infra"]);
    for module in ["system", "infra"] {
        assert!(!is_unselected_module_dir(&format!("yudao-module-{module}"), &selected));
    }
    for module in ["member", "ai", "wms"] {
        assert!(is_unselected_module_dir(&format!("yudao-module-{module}"), &selected));
    }
    assert!(!is_unselected_module_dir("yudao-server", &selected));

    let root = "<modules>
  <module>yudao-module-system</module>
  <module>yudao-module-infra</module>
<!--  <module>yudao-module-member</module>-->
<!--  <module>yudao-module-ai</module>-->
</modules>
";
    let server = "<dependencies>
<!--  <dependency>-->
<!--    <artifactId>yudao-module-member</artifactId>-->
<!--  </dependency>-->
<!--  <dependency>-->
<!--    <artifactId>yudao-module-ai</artifactId>-->
<!--  </dependency>-->
</dependencies>
";
    let root_pom = activate_root_modules(root, &selected).unwrap_or_else(|| root.to_string());
    assert!(root_pom.contains("<!--  <module>yudao-module-member</module>-->"));
    assert!(root_pom.contains("<!--  <module>yudao-module-ai</module>-->"));
    let server_pom = activate_server_dependencies(server, &selected).unwrap_or_else(|| server.to_string());
    assert!(server_pom.contains("<!--    <artifactId>yudao-module-member</artifactId>-->"));
    assert!(server_pom.contains("<!--    <artifactId>yudao-module-ai</artifactId>-->"));
}

#[test]
fn activates_a_selected_optional_module_in_both_poms() {
    let selected = strings(&["system", "infra", "member"]);
    let root = "<module>yudao-module-system</module>\n<module>yudao-module-infra</module>\n<!-- <module>yudao-module-member</module> -->\n";
    let server = "<!-- <dependency> -->\n<!-- <artifactId>yudao-module-member</artifactId> -->\n<!-- </dependency> -->\n";

    let root_pom = activate_root_modules(root, &selected).unwrap();
    assert!(root_pom.contains("<module>yudao-module-member</module>"));
    assert!(!root_pom.contains("<!-- <module>yudao-module-member"));
    let server_pom = activate_server_dependencies(server, &selected).unwrap();
    assert!(server_pom.contains("<artifactId>yudao-module-member</artifactId>"));
    assert!(!server_pom.contains("<!-- <artifactId>yudao-module-member"));
}

#[test]
fn applies_maven_port_tenant_and_super_admin_settings() {
    let profile = "server:\n  port: 48080\nsecurity:\n  frame: localhost:48080 127.0.0.1:48080\n";
    let application = "yudao:\n  tenant: # tenant settings\n    enable: true # current\n";
    let pom = "<properties><revision>old</revision></properties>\n";
    let sql = "INSERT INTO system_users (id, username, password) VALUES (1, N'admin', N'old-hash');\n";

    let profile_text = set_top_level_server_port(profile, 49090).unwrap();
    let application_text = set_tenant_enabled(application, false).unwrap();
    let pom_text = set_xml_tag_value(pom, "revision", "2.3.4-SNAPSHOT").unwrap();
    let credentials = configure_super_admin("root'user", "new-secret").unwrap();
    let sql_text = rewrite_super_admin_sql_text(
        sql,
        &credentials.escaped_username,
        &credentials.password_hash,
    )
    .unwrap();

    assert!(profile_text.contains("port: 49090"));
    assert!(profile_text.contains("localhost:49090 127.0.0.1:49090"));
    assert!(application_text.contains("enable: false # current"));
    assert!(pom_text.contains("<revision>2.3.4-SNAPSHOT</revision>"));
    assert!(sql_text.contains("N'root''user'"));
    let (_, username_end) = sql_string_range(&sql_text, sql_text.find("VALUES").unwrap()).unwrap();
    let (password_start, password_end) = sql_string_range(&sql_text, username_end + 1).unwrap();
    assert!(bcrypt::verify("new-secret", &sql_text[password_start..password_end]).unwrap());
}

#[test]
fn relocates_java_packages_without_deleting_cn_targets_or_recursing() {
    assert_eq!(java_package_dirs("cn.example.app"), vec!["cn", "example", "app"]);
    assert!(!package_is_unchanged("cn.example.app"));
    assert_eq!(
        java_package_dirs("cn.iocoder.yudao.child"),
        vec!["cn", "iocoder", "yudao", "child"]
    );
    assert!(!package_is_unchanged("cn.iocoder.yudao.child"));
    assert!(package_is_unchanged("cn.iocoder.yudao"));
}

#[test]
fn staged_output_preserves_existing_content_until_commit() {
    let abandoned = StagedOutputDir::new("/tmp/.project.yudao-scaffold-staging-1-1".to_string());
    assert!(abandoned.needs_cleanup());
    let mut staged = StagedOutputDir::new("/tmp/.project.yudao-scaffold-staging-1-2".to_string());
    assert_eq!(staged.path(), "/tmp/.project.yudao-scaffold-staging-1-2");
    staged.mark_committed();
    assert!(!staged.needs_cleanup());
}

#[test]
fn keeps_only_the_selected_vben_variant() {
    let plan = prune_vben_variants("ele").unwrap();
    assert_eq!(plan.keep, "web-ele");
    assert_eq!(plan.remove, vec!["web-antd", "web-antdv-next", "web-naive", "web-tdesign"]);
    assert!(!plan.remove.contains(&"web-ele".to_string()));
}

#[test]
fn applies_microservice_port_to_yaml_and_dockerfile() {
    let yaml = "spring:\n  application:\n    name: demo\nserver:\n  port: 48081\n";
    let dockerfile = "FROM scratch\nEXPOSE 48081\n";
    let (yaml_text, docker_text) = configure_microservice_port(yaml, dockerfile, 49101).unwrap();
    assert!(yaml_text.contains("port: 49101"));
    assert!(docker_text.contains("EXPOSE 49101"));
    assert_eq!(default_microservice_ports("member"), vec![48087]);
    assert_eq!(default_microservice_ports("mall"), vec![48100, 48102, 48101, 48103]);
}

#[test]
fn falls_back_when_a_successful_response_is_not_a_zip() {
    let not_zip_url = "http://127.0.0.1:1/not-a-zip";
    let zip_url = "http://127.0.0.1:1/template.zip";
    let mut attempts = DownloadAttempts::new(vec![not_zip_url.to_string(), zip_url.to_string()]);

    let DownloadAction::Fetch(first) = attempts.next_action() else {
        panic!("the first candidate is tried first");
    };
    assert_eq!(first, not_zip_url);
    let not_zip = DownloadResponse::Body {
        content_type: Some("text/html".to_string()),
        bytes: b"<!doctype html>blocked".to_vec(),
    };
    assert!(!attempts.record_response(&first, &not_zip));
    let first_error = check_download(&first, &not_zip).unwrap_err();
    assert_eq!(
        first_error,
        "http://127.0.0.1:1/not-a-zip 返回的不是 ZIP（Content-Type: text/html，22 字节）"
    );

    let DownloadAction::Fetch(second) = attempts.next_action() else {
        panic!("the second candidate is tried after the first fails");
    };
    assert_eq!(second, zip_url);
    let zip = DownloadResponse::Body {
        content_type: Some("application/zip".to_string()),
        bytes: b"PK\x03\x04template contents".to_vec(),
    };
    assert!(attempts.record_response(&second, &zip));
    assert_eq!(
        download_failure_message(&vec![first_error.clone()]),
        format!("模板下载失败: {first_error}")
    );
}
