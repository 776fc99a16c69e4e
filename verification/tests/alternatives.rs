use spm::alternatives::{
    generate_install_scriptlet, generate_remove_scriptlet, inject_alternatives, ResolvedScripts,
};
use spm::config::{AlternativeConfig, AlternativeFollower};

fn matlab_alt() -> AlternativeConfig {
    AlternativeConfig {
        name: "matlab".to_string(),
        link: "/usr/bin/matlab".to_string(),
        path: "/opt/matlab/R2025a/bin/matlab".to_string(),
        priority: 2025,
        followers: vec![],
    }
}

fn matlab_alt_with_followers() -> AlternativeConfig {
    AlternativeConfig {
        name: "matlab".to_string(),
        link: "/usr/bin/matlab".to_string(),
        path: "/opt/matlab/R2025a/bin/matlab".to_string(),
        priority: 2025,
        followers: vec![
            AlternativeFollower {
                name: "mex".to_string(),
                link: "/usr/bin/mex".to_string(),
                path: "/opt/matlab/R2025a/bin/mex".to_string(),
            },
            AlternativeFollower {
                name: "matlab-help".to_string(),
                link: "/usr/bin/matlab-help".to_string(),
                path: "/opt/matlab/R2025a/bin/matlab-help".to_string(),
            },
        ],
    }
}

#[test]
fn test_install_scriptlet_basic() {
    let script = generate_install_scriptlet(&vec![matlab_alt()]).unwrap();
    assert!(script.contains("# [spm:alternatives]"));
    assert!(
        script.contains("--install /usr/bin/matlab matlab /opt/matlab/R2025a/bin/matlab 2025")
    );
    assert!(!script.contains("--slave"));
}

#[test]
fn test_install_scriptlet_with_followers() {
    let script = generate_install_scriptlet(&vec![matlab_alt_with_followers()]).unwrap();
    assert!(script.contains("--slave /usr/bin/mex mex /opt/matlab/R2025a/bin/mex"));
    assert!(script.contains(
        "--slave /usr/bin/matlab-help matlab-help /opt/matlab/R2025a/bin/matlab-help"
    ));
}

#[test]
fn test_remove_scriptlet() {
    let script = generate_remove_scriptlet(&vec![matlab_alt()]).unwrap();
    assert!(script.contains("# [spm:alternatives]"));
    assert!(script.contains("\"$1\" = \"0\""));
    assert!(script.contains("\"$1\" = \"remove\""));
    assert!(
        script.contains("update-alternatives --remove matlab /opt/matlab/R2025a/bin/matlab")
    );
    assert!(script.contains("fi"));
}

#[test]
fn test_empty_alternatives_returns_none() {
    assert!(generate_install_scriptlet(&vec![]).is_none());
    assert!(generate_remove_scriptlet(&vec![]).is_none());
}

#[test]
fn test_multiple_alternatives() {
    let alts = vec![
        AlternativeConfig {
            name: "matlab".to_string(),
            link: "/usr/bin/matlab".to_string(),
            path: "/opt/matlab/R2025a/bin/matlab".to_string(),
            priority: 2025,
            followers: vec![],
        },
        AlternativeConfig {
            name: "python".to_string(),
            link: "/usr/bin/python".to_string(),
            path: "/usr/bin/python3.11".to_string(),
            priority: 311,
            followers: vec![],
        },
    ];

    let install = generate_install_scriptlet(&alts).unwrap();
    assert!(install.contains("--install /usr/bin/matlab matlab"));
    assert!(install.contains("--install /usr/bin/python python"));

    let remove = generate_remove_scriptlet(&alts).unwrap();
    assert!(remove.contains("--remove matlab"));
    assert!(remove.contains("--remove python"));
}

#[test]
fn test_install_scriptlet_exact_text() {
    let script = generate_install_scriptlet(&vec![matlab_alt()]).unwrap();
    assert_eq!(
        script,
        "# [spm:alternatives] Auto-generated \u{2014} do not edit\n\
         update-alternatives \\\n  --install /usr/bin/matlab matlab /opt/matlab/R2025a/bin/matlab 2025"
    );
}

#[test]
fn test_remove_scriptlet_exact_text() {
    let script = generate_remove_scriptlet(&vec![matlab_alt()]).unwrap();
    assert_eq!(
        script,
        "# [spm:alternatives] Auto-generated \u{2014} do not edit\n\
         if [ \"$1\" = \"0\" ] || [ \"$1\" = \"remove\" ]; then\n\
         \x20 update-alternatives --remove matlab /opt/matlab/R2025a/bin/matlab\n\
         fi"
    );
}

#[test]
fn test_inject_alternatives_only() {
    let resolved = inject_alternatives(ResolvedScripts::default(), &vec![matlab_alt()]);
    assert!(resolved.pre_install.is_none());
    assert!(resolved.post_install.as_ref().unwrap().contains("--install"));
    assert!(resolved.pre_remove.as_ref().unwrap().contains("--remove"));
    assert!(resolved.post_remove.is_none());
}

#[test]
fn test_inject_alternatives_order_with_user_scripts() {
    let user = ResolvedScripts {
        pre_install: None,
        post_install: Some("echo post-install\n".to_string()),
        pre_remove: Some("echo pre-remove\n".to_string()),
        post_remove: None,
        pre_trans: Some("echo pretrans".to_string()),
        post_trans: None,
    };
    let resolved = inject_alternatives(user, &vec![matlab_alt()]);
    let post = resolved.post_install.unwrap();
    assert!(post.find("[spm:alternatives]").unwrap() < post.find("echo post-install").unwrap());
    let pre = resolved.pre_remove.unwrap();
    assert!(pre.find("echo pre-remove").unwrap() < pre.find("[spm:alternatives]").unwrap());
    assert!(pre.starts_with("echo pre-remove\n\n# [spm:alternatives]"));
    assert_eq!(resolved.pre_trans.as_deref(), Some("echo pretrans"));
}

#[test]
fn test_inject_no_alternatives_keeps_user_scripts() {
    let user = ResolvedScripts {
        pre_install: None,
        post_install: Some("a".to_string()),
        pre_remove: None,
        post_remove: Some("b".to_string()),
        pre_trans: None,
        post_trans: None,
    };
    let resolved = inject_alternatives(user, &vec![]);
    assert_eq!(resolved.post_install.as_deref(), Some("a"));
    assert!(resolved.pre_remove.is_none());
    assert_eq!(resolved.post_remove.as_deref(), Some("b"));
}
