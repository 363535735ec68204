use binx::config::{Config, ConfigAlias};
use binx::desktop::{
    desktop_filename, display_name, find_icon_file, generate_desktop_content,
    compose_desktop_content, generate_script_content, icon_candidates, install_desktop_file,
    install_icon_file, install_target_script, remove_alias, resolve_desktop_exec,
};

#[test]
fn desktop_file_name() {
    assert_eq!(desktop_filename("myapp"), "binx_myapp");
}

#[test]
fn script_content() {
    assert_eq!(
        generate_script_content("/home/u/.binx/binx", "myapp"),
        "#!/bin/bash\n# Script generated by binx\nexec /home/u/.binx/binx myapp \"$@\""
    );
    let mut c = Config::new();
    c.insert("myapp".to_string(), ConfigAlias::new("/opt/myapp".to_string()));
    let plan = install_target_script(&mut c, "/home/u/.binx", "/home/u/.binx/binx", "myapp");
    assert_eq!(plan.path, "/home/u/.binx/myapp");
    assert_eq!(plan.content, generate_script_content("/home/u/.binx/binx", "myapp"));
    assert_eq!(c.get("myapp").unwrap().script.as_deref(), Some("/home/u/.binx/myapp"));
    assert_eq!(c.get("myapp").unwrap().path, "/opt/myapp");
    let mut empty = Config::new();
    let plan = install_target_script(&mut empty, "/home/u/.binx", "/home/u/.binx/binx", "other");
    assert_eq!(plan.path, "/home/u/.binx/other");
    assert_eq!(empty.len(), 0);
}

#[test]
fn desktop_exec() {
    assert_eq!(
        resolve_desktop_exec("/home/u/.binx/binx", "myapp"),
        ("/home/u/.binx/binx myapp".to_string(), "/home/u/.binx/binx".to_string())
    );
}

#[test]
fn capitalised_names() {
    assert_eq!(display_name("myapp"), "Myapp");
    assert_eq!(display_name("MyApp"), "MyApp");
    assert_eq!(display_name("1app"), "1app");
    assert_eq!(display_name(""), "");
    assert_eq!(display_name("élan"), "Élan");
    assert_eq!(display_name("ßx"), "SSx");
}

#[test]
fn desktop_content() {
    let expected = "[Desktop Entry]\nType=Application\nName=Myapp\nComment=Launch myapp via binx\nExec=/b/binx myapp\nTryExec=/b/binx\nIcon=myapp\nTerminal=true\nNoDisplay=false\nCategories=Utility;\n";
    assert_eq!(generate_desktop_content("myapp", "/b/binx myapp", "/b/binx", "myapp"), expected);
    assert_eq!(compose_desktop_content("Myapp", "myapp", "/b/binx myapp", "/b/binx", "myapp"), expected);
    let mut c = Config::new();
    c.insert("myapp".to_string(), ConfigAlias::new("/opt/myapp".to_string()));
    let plan = install_desktop_file(&mut c, "/home/u/.local/share/applications", "/b/binx", "myapp", Some("myapp"));
    assert_eq!(plan.file_path, "/home/u/.local/share/applications/binx_myapp.desktop");
    assert_eq!(plan.content, expected);
    assert_eq!(c.get("myapp").unwrap().desktop.as_deref(), Some("/home/u/.local/share/applications/binx_myapp.desktop"));
    assert_eq!(c.get("myapp").unwrap().icon.as_deref(), Some("myapp"));
    let plain = install_desktop_file(&mut c, "/apps", "/b/binx", "myapp", None);
    assert!(plain.content.contains("\nIcon=application-x-executable\n"));
}

#[test]
fn icons() {
    assert_eq!(
        icon_candidates("/opt/myapp/bin/myapp"),
        Some(("/opt/myapp/bin/myapp.svg".to_string(), "/opt/myapp/bin/myapp.png".to_string()))
    );
    assert_eq!(
        icon_candidates("/opt/tool.sh"),
        Some(("/opt/tool.svg".to_string(), "/opt/tool.png".to_string()))
    );
    assert_eq!(icon_candidates("/"), None);
    let c = icon_candidates("/opt/a/a");
    assert_eq!(find_icon_file(c.clone(), true, true), Some("/opt/a/a.svg".to_string()));
    assert_eq!(find_icon_file(c.clone(), false, true), Some("/opt/a/a.png".to_string()));
    assert_eq!(find_icon_file(c, false, false), None);
    assert_eq!(find_icon_file(None, true, true), None);
}

#[test]
fn icon_installation() {
    let p = install_icon_file("/home/u", "myapp", "/opt/myapp/myapp.svg");
    assert_eq!(p.dest_dir, "/home/u/.local/share/icons/hicolor/scalable/apps");
    assert_eq!(p.dest_path, "/home/u/.local/share/icons/hicolor/scalable/apps/myapp.svg");
    assert_eq!(p.icon_name, "myapp");
    let p = install_icon_file("/home/u", "myapp", "/opt/myapp/myapp.png");
    assert_eq!(p.dest_path, "/home/u/.local/share/icons/hicolor/256x256/apps/myapp.png");
    let p = install_icon_file("/home/u", "myapp", "/opt/myapp/icon");
    assert_eq!(p.dest_path, "/home/u/.local/share/icons/hicolor/256x256/apps/myapp.png");
}

#[test]
fn installed_icon_is_removed() {
    let mut c = Config::new();
    c.insert("myapp".to_string(), ConfigAlias::new("/opt/myapp/myapp".to_string()));
    let icon = install_icon_file("/home/u", "myapp", "/opt/myapp/myapp.png");
    install_desktop_file(&mut c, "/apps", "/b/binx", "myapp", Some(&icon.icon_name));
    let plan = remove_alias(&mut c, "myapp", "/home/u", "/apps").unwrap();
    assert!(plan.icon_files.contains(&icon.dest_path));
    assert_eq!(plan.desktop_file, "/apps/binx_myapp.desktop");
}

#[test]
fn desktop_without_icon_keeps_icon_unset() {
    let mut c = Config::new();
    c.insert("a".to_string(), ConfigAlias::new("/a".to_string()));
    install_desktop_file(&mut c, "/apps", "/b/binx", "a", None);
    assert_eq!(c.get("a").unwrap().icon, None);
}

#[test]
fn removal() {
    let mut c = Config::new();
    let mut a = ConfigAlias::new("/opt/myapp/myapp".to_string());
    a.script = Some("/home/u/.binx/myapp".to_string());
    a.icon = Some("myapp".to_string());
    c.insert("myapp".to_string(), a);
    c.insert("plain".to_string(), ConfigAlias::new("/bin/plain".to_string()));
    let plan = remove_alias(&mut c, "myapp", "/home/u", "/home/u/.local/share/applications").unwrap();
    assert!(!c.contains("myapp"));
    assert!(c.contains("plain"));
    assert_eq!(plan.script.as_deref(), Some("/home/u/.binx/myapp"));
    assert_eq!(plan.desktop_file, "/home/u/.local/share/applications/binx_myapp.desktop");
    assert_eq!(
        plan.icon_files,
        vec![
            "/home/u/.local/share/icons/hicolor/scalable/apps/myapp.svg",
            "/home/u/.local/share/icons/hicolor/scalable/apps/myapp.png",
            "/home/u/.local/share/icons/hicolor/256x256/apps/myapp.svg",
            "/home/u/.local/share/icons/hicolor/256x256/apps/myapp.png",
        ]
    );
    let installed = install_icon_file("/home/u", "myapp", "/opt/myapp/myapp.svg");
    assert!(plan.icon_files.contains(&installed.dest_path));
    let plain = remove_alias(&mut c, "plain", "/home/u", "/apps").unwrap();
    assert_eq!(plain.script, None);
    assert!(plain.icon_files.is_empty());
    assert_eq!(plain.desktop_file, "/apps/binx_plain.desktop");
    assert!(remove_alias(&mut c, "missing", "/home/u", "/apps").is_none());
    assert_eq!(c.len(), 0);
}

#[test]
fn found_icon_is_removed() {
    for target in ["/opt/app/bin/app", "/opt/tool.sh", "relative/x.tar.gz", ".hidden"] {
        let (svg, png) = icon_candidates(target).unwrap();
        assert_eq!(binx::paths::extension(&svg).as_deref(), Some("svg"));
        assert_eq!(binx::paths::extension(&png).as_deref(), Some("png"));
        for icon in [&svg, &png] {
            let mut c = Config::new();
            c.insert("al".to_string(), ConfigAlias::new(target.to_string()));
            let installed = install_icon_file("/home/u", "al", icon);
            install_desktop_file(&mut c, "/apps", "/b/binx", "al", Some(&installed.icon_name));
            let plan = remove_alias(&mut c, "al", "/home/u", "/apps").unwrap();
            assert!(plan.icon_files.contains(&installed.dest_path), "{} {}", target, icon);
        }
    }
}
