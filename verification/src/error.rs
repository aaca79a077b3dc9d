//! The ways a scaffolding step can be refused.
use vstd::prelude::*;
use crate::text::{decimal, push_decimal, push_str};

verus! {

/// Why a scaffolding step could not be carried out.
#[derive(Debug)]
pub enum ScaffoldError {
    /// The XML text has no `<tag>`; the tag's name.
    MissingXmlOpenTag(String),
    /// The XML text has no `</tag>` after `<tag>`; the tag's name.
    MissingXmlCloseTag(String),
    /// The YAML text has no top-level `server:` line.
    MissingTopLevelServer,
    /// The top-level `server:` block has no `port:` line.
    MissingServerPort,
    /// The Dockerfile has no `EXPOSE ` line.
    MissingDockerExpose,
    /// The YAML text has no `yudao.tenant` section.
    MissingTenantSection,
    /// The `yudao.tenant` section has no `enable:` line.
    MissingTenantEnable,
    /// A JDK version other than 8 and 17 was asked for.
    UnsupportedJdkVersion(String),
    /// A required business module (`system`, `infra`) was not selected.
    MissingRequiredModule(String),
    /// A business module that the scaffolder does not know was selected.
    UnknownModule(String),
    /// A Vben UI variant that the scaffolder does not know was asked for.
    UnknownVbenVariant(String),
    /// A monolith project without a server port.
    MissingMonolithPort,
    /// A microservice project without a gateway port.
    MissingGatewayPort,
    /// A backend kind other than `monolith` and `microservice`.
    UnknownBackend(String),
    /// A module was given a number of ports that differs from its number of services.
    PortCountMismatch { module: String, expected: usize, actual: usize },
    /// One port was given to two services.
    PortConflict { port: u16, existing: String, owner: String },
    /// The super administrator's user name holds a line break.
    UsernameHasLineBreak,
    /// Hashing the super administrator's password failed, with the hasher's message.
    PasswordHash(String),
    /// No SQL script held the super administrator's insert statement.
    MissingSuperAdminInsert,
    /// No output directory was chosen.
    EmptyOutputDir,
    /// The output directory is not an absolute path.
    OutputDirNotAbsolute,
    /// The output directory exists and overwriting it was not confirmed.
    OutputDirExists,
    /// The output path exists and is not a directory.
    OutputPathNotDirectory,
    /// The output directory is too close to the file system root to be replaced.
    OutputDirTooHigh,
    /// The output directory is the user's home directory.
    OutputDirIsHome,
}

} // verus!

verus! {

/// The message shown for `e`; `at` names the file or directory the error
/// concerns, where it concerns one.
pub open spec fn error_message(e: ScaffoldError, at: Seq<char>) -> Seq<char> {
    match e {
        ScaffoldError::MissingXmlOpenTag(t) => at + " 缺少 <"@ + t@ + ">"@,
        ScaffoldError::MissingXmlCloseTag(t) => at + " 缺少 </"@ + t@ + ">"@,
        ScaffoldError::MissingTopLevelServer => at + " 缺少顶层 server 配置"@,
        ScaffoldError::MissingServerPort => at + " 缺少 server.port 配置"@,
        ScaffoldError::MissingDockerExpose => at + " 缺少 EXPOSE 配置"@,
        ScaffoldError::MissingTenantSection => at + " 缺少 yudao.tenant 配置"@,
        ScaffoldError::MissingTenantEnable => at + " 缺少 yudao.tenant.enable 配置"@,
        ScaffoldError::UnsupportedJdkVersion(v) => "不支持的 JDK 版本: "@ + v@,
        ScaffoldError::MissingRequiredModule(m) => "缺少必选业务模块: "@ + m@,
        ScaffoldError::UnknownModule(m) => "未知业务模块: "@ + m@,
        ScaffoldError::UnknownVbenVariant(v) => "未知 Vben UI 变体: "@ + v@,
        ScaffoldError::MissingMonolithPort => "单体项目缺少服务端口"@,
        ScaffoldError::MissingGatewayPort => "微服务项目缺少网关端口"@,
        ScaffoldError::UnknownBackend(b) => "未知后端类型: "@ + b@,
        ScaffoldError::PortCountMismatch { module, expected, actual } => "模块 "@ + module@
            + " 需要 "@ + decimal(expected as nat) + " 个端口，但收到 "@ + decimal(actual as nat)
            + " 个"@,
        ScaffoldError::PortConflict { port, existing, owner } => "端口 "@ + decimal(port as nat)
            + " 同时分配给 "@ + existing@ + " 和 "@ + owner@,
        ScaffoldError::UsernameHasLineBreak => "超管用户名不能包含换行符"@,
        ScaffoldError::PasswordHash(m) => "生成超管密码哈希失败: "@ + m@,
        ScaffoldError::MissingSuperAdminInsert => "未在 "@ + at + " 找到超管初始化 SQL"@,
        ScaffoldError::EmptyOutputDir => "请选择输出目录"@,
        ScaffoldError::OutputDirNotAbsolute => "输出目录必须是绝对路径"@,
        ScaffoldError::OutputDirExists => "输出目录已存在，请确认强制覆盖后再生成"@,
        ScaffoldError::OutputPathNotDirectory => "输出路径已存在，但不是目录"@,
        ScaffoldError::OutputDirTooHigh => "拒绝删除过高层级目录: "@ + at,
        ScaffoldError::OutputDirIsHome => "拒绝删除用户主目录"@,
    }
}

impl ScaffoldError {
    /// The message shown to the user; `at` names the file or directory the
    /// error concerns, where it concerns one (see `error_message`).
    pub fn message(&self, at: &str) -> (r: String)
        ensures
            r@ == error_message(*self, at@),
    {
        let mut r = String::new();
        match self {
            ScaffoldError::MissingXmlOpenTag(t) => {
                push_str(&mut r, at);
                push_str(&mut r, " 缺少 <");
                push_str(&mut r, t.as_str());
                push_str(&mut r, ">");
            },
            ScaffoldError::MissingXmlCloseTag(t) => {
                push_str(&mut r, at);
                push_str(&mut r, " 缺少 </");
                push_str(&mut r, t.as_str());
                push_str(&mut r, ">");
            },
            ScaffoldError::MissingTopLevelServer => {
                push_str(&mut r, at);
                push_str(&mut r, " 缺少顶层 server 配置");
            },
            ScaffoldError::MissingServerPort => {
                push_str(&mut r, at);
                push_str(&mut r, " 缺少 server.port 配置");
            },
            ScaffoldError::MissingDockerExpose => {
                push_str(&mut r, at);
                push_str(&mut r, " 缺少 EXPOSE 配置");
            },
            ScaffoldError::MissingTenantSection => {
                push_str(&mut r, at);
                push_str(&mut r, " 缺少 yudao.tenant 配置");
            },
            ScaffoldError::MissingTenantEnable => {
                push_str(&mut r, at);
                push_str(&mut r, " 缺少 yudao.tenant.enable 配置");
            },
            ScaffoldError::UnsupportedJdkVersion(v) => {
                push_str(&mut r, "不支持的 JDK 版本: ");
                push_str(&mut r, v.as_str());
            },
            ScaffoldError::MissingRequiredModule(m) => {
                push_str(&mut r, "缺少必选业务模块: ");
                push_str(&mut r, m.as_str());
            },
            ScaffoldError::UnknownModule(m) => {
                push_str(&mut r, "未知业务模块: ");
                push_str(&mut r, m.as_str());
            },
            ScaffoldError::UnknownVbenVariant(v) => {
                push_str(&mut r, "未知 Vben UI 变体: ");
                push_str(&mut r, v.as_str());
            },
            ScaffoldError::MissingMonolithPort => {
                push_str(&mut r, "单体项目缺少服务端口");
            },
            ScaffoldError::MissingGatewayPort => {
                push_str(&mut r, "微服务项目缺少网关端口");
            },
            ScaffoldError::UnknownBackend(b) => {
                push_str(&mut r, "未知后端类型: ");
                push_str(&mut r, b.as_str());
            },
            ScaffoldError::PortCountMismatch { module, expected, actual } => {
                push_str(&mut r, "模块 ");
                push_str(&mut r, module.as_str());
                push_str(&mut r, " 需要 ");
                push_decimal(&mut r, *expected as u64);
                push_str(&mut r, " 个端口，但收到 ");
                push_decimal(&mut r, *actual as u64);
                push_str(&mut r, " 个");
            },
            ScaffoldError::PortConflict { port, existing, owner } => {
                push_str(&mut r, "端口 ");
                push_decimal(&mut r, *port as u64);
                push_str(&mut r, " 同时分配给 ");
                push_str(&mut r, existing.as_str());
                push_str(&mut r, " 和 ");
                push_str(&mut r, owner.as_str());
            },
            ScaffoldError::UsernameHasLineBreak => {
                push_str(&mut r, "超管用户名不能包含换行符");
            },
            ScaffoldError::PasswordHash(m) => {
                push_str(&mut r, "生成超管密码哈希失败: ");
                push_str(&mut r, m.as_str());
            },
            ScaffoldError::MissingSuperAdminInsert => {
                push_str(&mut r, "未在 ");
                push_str(&mut r, at);
                push_str(&mut r, " 找到超管初始化 SQL");
            },
            ScaffoldError::EmptyOutputDir => {
                push_str(&mut r, "请选择输出目录");
            },
            ScaffoldError::OutputDirNotAbsolute => {
                push_str(&mut r, "输出目录必须是绝对路径");
            },
            ScaffoldError::OutputDirExists => {
                push_str(&mut r, "输出目录已存在，请确认强制覆盖后再生成");
            },
            ScaffoldError::OutputPathNotDirectory => {
                push_str(&mut r, "输出路径已存在，但不是目录");
            },
            ScaffoldError::OutputDirTooHigh => {
                push_str(&mut r, "拒绝删除过高层级目录: ");
                push_str(&mut r, at);
            },
            ScaffoldError::OutputDirIsHome => {
                push_str(&mut r, "拒绝删除用户主目录");
            },
        }
        r
    }
}

} // verus!
