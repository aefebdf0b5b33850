use aegis::access::{AccessMask, FileAccess};
use aegis::config::{exe_file_name, exit_status, loopback_addr, names_a_path_exec, Config, Files, Network, Process};
use aegis::launch::{build_cmdline, creation_flags, internet_capability, proxy_environment};
use aegis::sandbox::{ancestors, binary_allowed_exec, Capability, SandboxConfig, SandboxError};

#[test]
fn file_access_masks_are_standard_generic_values() {
    assert_eq!(FileAccess::Read.mask().0, 0x8000_0000);
    assert_eq!(FileAccess::ReadExecute.mask().0, 0xA000_0000);
    assert_eq!(FileAccess::Write.mask().0, 0x4000_0000);
    assert_eq!(FileAccess::ReadWrite.mask().0, 0xC000_0000);
    assert_eq!(FileAccess::Full.mask().0, 0xE000_0000);
    assert_eq!(FileAccess::Traverse.mask().0, 0x2000_0000);
}

#[test]
fn file_access_names() {
    assert_eq!(FileAccess::Read.as_str(), "read");
    assert_eq!(FileAccess::ReadExecute.as_str(), "read_execute");
    assert_eq!(FileAccess::Write.as_str(), "write");
    assert_eq!(FileAccess::ReadWrite.as_str(), "read_write");
    assert_eq!(FileAccess::Full.as_str(), "full");
    assert_eq!(FileAccess::Traverse.as_str(), "traverse");
    assert_eq!(FileAccess::ReadWrite.mask(), AccessMask(0x8000_0000 | 0x4000_0000));
}

#[test]
fn cmdline_quotes_only_when_needed() {
    assert_eq!(build_cmdline("C:\\x y\\a.exe", &[]), "\"C:\\x y\\a.exe\"");
    assert_eq!(
        build_cmdline("a.exe", &["-p", "say hi", "q\"t", "tab\there"]),
        "\"a.exe\" -p \"say hi\" \"q\\\"t\" \"tab\there\""
    );
    assert_eq!(build_cmdline("a.exe", &[""]), "\"a.exe\" ");
}

#[test]
fn launch_flags_and_environment() {
    assert_eq!(creation_flags(false), 0x0008_0000);
    assert_eq!(creation_flags(true), 0x0008_0010);
    let env = proxy_environment("127.0.0.1:5000");
    let names: Vec<&str> = env.iter().map(|(k, _)| k.as_str()).collect();
    assert_eq!(names, vec!["HTTP_PROXY", "http_proxy", "HTTPS_PROXY", "https_proxy", "NO_PROXY", "no_proxy"]);
    assert_eq!(env[0].1, "http://127.0.0.1:5000");
    assert_eq!(env[3].1, "http://127.0.0.1:5000");
    assert_eq!(env[5].1, "127.0.0.1,localhost");
}

#[test]
fn config_defaults_and_template() {
    let c = Config::default();
    assert_eq!(c.profile, "aegis");
    assert_eq!(c.command, "");
    assert!(c.files.read.is_empty() && c.files.write.is_empty());
    assert!(c.network.domains.is_empty() && c.process.allow.is_empty());
    assert_eq!(Config::FILE_NAME, "aegis.toml");
    let t = Config::template();
    assert!(t.starts_with("# aegis sandbox configuration\n"));
    assert!(t.contains("profile = \"aegis\"\n"));
    assert!(t.contains("command = \"\"\n"));
    assert!(t.contains("domains = [\"anthropic.com\"]"));
    assert!(t.ends_with("allow = []\n"));
}

fn sample() -> Config {
    Config {
        profile: "p".into(),
        command: "agent".into(),
        files: Files { read: vec!["C:\\projects".into()], write: vec!["C:\\scratch".into()] },
        network: Network { domains: vec!["api.anthropic.com".into(), "github.com".into()] },
        process: Process { allow: vec!["git.exe".into()] },
    }
}

#[test]
fn run_plan_from_config() {
    let c = sample();
    let g = c.directory_grants(Some("D:\\work"));
    assert_eq!(
        g,
        vec![
            ("C:\\projects".to_string(), FileAccess::ReadExecute),
            ("C:\\scratch".to_string(), FileAccess::ReadWrite),
            ("D:\\work".to_string(), FileAccess::ReadWrite),
        ]
    );
    assert_eq!(c.directory_grants(None).len(), 2);
    let a = c.proxy_args("127.0.0.1:1", false).unwrap();
    assert_eq!(a, vec!["--listen", "127.0.0.1:1", "--allow", "api.anthropic.com,github.com"]);
    let b = c.proxy_args("127.0.0.1:1", true).unwrap();
    assert_eq!(b.last().unwrap(), "--audit");
    assert!(Config::default().proxy_args("127.0.0.1:1", true).is_none());
    let sc = c.sandbox_config(vec![Capability::InternetClient], Some("a.log".into()));
    assert_eq!(sc.profile_name, "p");
    assert_eq!(sc.allowed_binaries, vec!["git.exe"]);
    assert_eq!(sc.capabilities, vec![Capability::InternetClient]);
    assert_eq!(sc.audit_log.as_deref(), Some("a.log"));
    let d = SandboxConfig::default();
    assert!(d.profile_name.is_empty() && d.audit_log.is_none());
}

#[test]
fn command_resolution_helpers() {
    assert_eq!(loopback_addr(8080), "127.0.0.1:8080");
    assert_eq!(loopback_addr(0), "127.0.0.1:0");
    assert_eq!(exe_file_name("agent"), "agent.exe");
    assert_eq!(exe_file_name("git.EXE"), "git.EXE");
    assert_eq!(exe_file_name("x.ex"), "x.ex.exe");
    assert!(names_a_path_exec("C:\\bin\\agent.exe"));
    assert!(names_a_path_exec("./agent"));
    assert!(!names_a_path_exec("agent"));
    assert_eq!(exit_status(0), None);
    assert_eq!(exit_status(3), Some(3));
    assert_eq!(exit_status(0xFFFF_FFFF), Some(-1));
}

#[test]
fn process_allowlist() {
    let none: Vec<String> = Vec::new();
    assert!(binary_allowed_exec(&none, "anything.exe"));
    let list = vec!["C:\\Tools\\Git.exe".to_string()];
    assert!(binary_allowed_exec(&list, "c:\\tools\\git.EXE"));
    assert!(!binary_allowed_exec(&list, "C:\\Tools\\node.exe"));
}

#[test]
fn ancestor_chain_shrinks() {
    assert_eq!(ancestors("a/b/c"), vec!["a/b".to_string(), "a".to_string()]);
    assert!(ancestors("a").is_empty());
}

#[test]
fn sandbox_error_messages() {
    assert_eq!(SandboxError::NotAllowed("x".into()).message(), "not allowed: x");
    assert_eq!(SandboxError::Windows("boom".into()).message(), "boom");
}

#[test]
fn internet_capability_only_without_proxy() {
    assert!(internet_capability(None));
    assert!(!internet_capability(Some("127.0.0.1:5000")));
}
