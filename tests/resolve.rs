use bepinex_sources::bepinex::{artifact_id, BepInEx, BepInExAsset, BepInExRelease, ReleaseFlavor, ResolveError};
use bepinex_sources::game::{Game, GameArch, GameType};
use bepinex_sources::version::Version;

fn asset(name: &str) -> BepInExAsset {
    BepInExAsset { name: name.to_string(), link: format!("https://example.invalid/{name}") }
}

fn release(version: &str, flavor: ReleaseFlavor, names: &[&str]) -> BepInExRelease {
    BepInExRelease { version: Version::parse(version), assets: names.iter().map(|n| asset(n)).collect(), flavor }
}

fn game(ty: Option<GameType>, arch: GameArch) -> Game {
    let mut g = Game::default();
    g.set_ty(ty);
    g.set_arch(arch);
    g
}

#[test]
fn stable_six_il2cpp_x64() {
    let name = "BepInEx_UnityIL2CPP_x64_6.0.0.zip";
    let target = game(Some(GameType::UnityIL2CPP), GameArch::X64);
    let present = release("6.0.0", ReleaseFlavor::Stable, &["BepInEx_UnityMono_x64_6.0.0.zip", name]);
    assert_eq!(present.to_query(&target), Some(name.to_string()));
    assert_eq!(present.resolve(&target), Ok(asset(name)));
    let absent = release("6.0.0", ReleaseFlavor::Stable, &["BepInEx_UnityMono_x64_6.0.0.zip"]);
    assert_eq!(absent.resolve(&target), Err(ResolveError::AssetNotFound));
}

#[test]
fn stable_six_pre_release_keeps_full_version() {
    let target = game(Some(GameType::UnityMono), GameArch::X86);
    let rel = release("v6.0.0-pre.1", ReleaseFlavor::Stable, &[]);
    assert_eq!(rel.to_query(&target), Some("BepInEx_UnityMono_x86_6.0.0-pre.1.zip".to_string()));
}

#[test]
fn stable_legacy_x86() {
    let name = "BepInEx_x86_5.4.11.0.zip";
    let rel = release("5.4.11", ReleaseFlavor::Stable, &["BepInEx_x64_5.4.11.0.zip", name]);
    for ty in [GameType::UnityMono, GameType::UnityIL2CPP] {
        let target = game(Some(ty), GameArch::X86);
        assert_eq!(rel.to_query(&target), Some(name.to_string()));
        assert_eq!(rel.resolve(&target), Ok(asset(name)));
    }
    let pre = release("5.4.23-rc.1+abc", ReleaseFlavor::Stable, &[]);
    assert_eq!(pre.to_query(&game(Some(GameType::UnityMono), GameArch::X64)), Some("BepInEx_x64_5.4.23.0.zip".to_string()));
    assert_eq!(pre.to_query(&game(None, GameArch::X64)), None);
}

#[test]
fn bleeding_edge_current_naming() {
    let name = "BepInEx-UnityMono-win-x64-6.0.0-650.abcdef+1a2b3c4.zip";
    let rel = release("6.0.0-650.abcdef+1a2b3c4", ReleaseFlavor::BleedingEdge, &[name]);
    let target = game(Some(GameType::UnityMono), GameArch::X64);
    assert_eq!(rel.to_query(&target), Some(name.to_string()));
    assert_eq!(rel.resolve(&target), Ok(asset(name)));
}

#[test]
fn bleeding_edge_older_naming() {
    let name = "BepInEx_UnityMono_x64_7b5a6f2_6.0.0-480.abcdef.zip";
    let rel = release("6.0.0-480.abcdef+7b5a6f2", ReleaseFlavor::BleedingEdge, &[name]);
    let target = game(Some(GameType::UnityMono), GameArch::X64);
    assert_eq!(rel.to_query(&target), Some(name.to_string()));
    assert_eq!(rel.resolve(&target), Ok(asset(name)));
    let il2cpp = release("6.0.0-be.599+0000000", ReleaseFlavor::BleedingEdge, &[]);
    assert_eq!(
        il2cpp.to_query(&game(Some(GameType::UnityIL2CPP), GameArch::X86)),
        Some("BepInEx_UnityIL2CPP_x86_0000000_6.0.0-be.599.zip".to_string())
    );
    let boundary = release("6.0.0-be.600+0000000", ReleaseFlavor::BleedingEdge, &[]);
    assert_eq!(
        boundary.to_query(&game(Some(GameType::UnityIL2CPP), GameArch::X86)),
        Some("BepInEx-UnityIL2CPP-win-x86-6.0.0-be.600+0000000.zip".to_string())
    );
}

#[test]
fn bleeding_edge_without_artifact_id() {
    let rel = release("6.0.0-pre.alpha", ReleaseFlavor::BleedingEdge, &["anything.zip"]);
    let target = game(Some(GameType::UnityMono), GameArch::X64);
    assert_eq!(rel.to_query(&target), None);
    assert_eq!(rel.resolve(&target), Err(ResolveError::AssetNotFound));
}

#[test]
fn unknown_backend_is_indeterminate() {
    let cases = [
        release("6.0.0", ReleaseFlavor::Stable, &["BepInEx_UnityMono_x64_6.0.0.zip"]),
        release("5.4.11", ReleaseFlavor::Stable, &["BepInEx_x64_5.4.11.0.zip"]),
        release("6.0.0-650.abcdef+1a2b3c4", ReleaseFlavor::BleedingEdge, &["BepInEx-UnityMono-win-x64-6.0.0-650.abcdef+1a2b3c4.zip"]),
    ];
    for rel in cases.iter() {
        assert_eq!(rel.resolve(&game(None, GameArch::X64)), Err(ResolveError::IndeterminateTarget));
    }
    for rel in cases.iter() {
        assert_eq!(rel.to_query(&game(None, GameArch::X64)), None);
    }
}

#[test]
fn resolve_is_deterministic() {
    let rel = release("6.0.0", ReleaseFlavor::Stable, &["BepInEx_UnityIL2CPP_x64_6.0.0.zip"]);
    for target in [game(Some(GameType::UnityIL2CPP), GameArch::X64), game(Some(GameType::UnityMono), GameArch::X64), game(None, GameArch::X86)] {
        assert_eq!(rel.resolve(&target), rel.resolve(&target));
    }
}

#[test]
fn select_asset_last_name_wins() {
    let mut rel = release("6.0.0", ReleaseFlavor::Stable, &[]);
    rel.assets = vec![
        BepInExAsset { name: "a.zip".to_string(), link: "first".to_string() },
        BepInExAsset { name: "b.zip".to_string(), link: "other".to_string() },
        BepInExAsset { name: "a.zip".to_string(), link: "second".to_string() },
    ];
    assert_eq!(rel.select_asset("a.zip".to_string()).map(|a| a.link), Some("second".to_string()));
    assert_eq!(rel.select_asset("b.zip".to_string()).map(|a| a.link), Some("other".to_string()));
    assert_eq!(rel.select_asset("c.zip".to_string()), None);
    assert_eq!(rel.select_asset("A.ZIP".to_string()), None);
}

#[test]
fn latest_is_newest_stable_in_any_order() {
    let catalog = BepInEx {
        releases: vec![
            release("5.4.21", ReleaseFlavor::Stable, &["x"]),
            release("6.0.0-650.abc+1", ReleaseFlavor::BleedingEdge, &["y"]),
            release("6.0.0-pre.1", ReleaseFlavor::Stable, &["z"]),
            release("5.4.22", ReleaseFlavor::Stable, &["w"]),
            release("6.0.0-pre.1+other", ReleaseFlavor::Stable, &["second"]),
        ],
    };
    let latest = catalog.latest().expect("a stable release");
    assert_eq!(latest.version.to_string(), "6.0.0-pre.1");
    assert_eq!(latest.assets, vec![asset("z")]);
    let only_be = BepInEx { releases: vec![release("6.0.0-650.abc+1", ReleaseFlavor::BleedingEdge, &["y"])] };
    assert_eq!(only_be.latest(), None);
    assert_eq!(BepInEx::default().latest(), None);
}

#[test]
fn releases_for_one_channel() {
    let catalog = BepInEx {
        releases: vec![
            release("5.4.21", ReleaseFlavor::Stable, &["x"]),
            release("6.0.0-650.abc+1", ReleaseFlavor::BleedingEdge, &["y"]),
            release("5.4.22", ReleaseFlavor::Stable, &["w"]),
        ],
    };
    let stable: Vec<String> = catalog.releases_for(ReleaseFlavor::Stable).iter().map(|r| r.version.to_string()).collect();
    assert_eq!(stable, vec!["5.4.21".to_string(), "5.4.22".to_string()]);
    assert_eq!(catalog.releases_for(ReleaseFlavor::BleedingEdge).len(), 1);
}

#[test]
fn il2cpp_needs_minimum_version() {
    let min = Version::parse("6.0.0-pre.1");
    let il2cpp = game(Some(GameType::UnityIL2CPP), GameArch::X64);
    let mono = game(Some(GameType::UnityMono), GameArch::X64);
    let old = release("5.4.22", ReleaseFlavor::Stable, &[]);
    let new = release("6.0.0-pre.1", ReleaseFlavor::Stable, &[]);
    assert!(!old.supports(&il2cpp, &min));
    assert!(new.supports(&il2cpp, &min));
    assert!(old.supports(&mono, &min));
    assert!(old.supports(&game(None, GameArch::X86), &min));
}

#[test]
fn artifact_id_is_first_numeric_component() {
    assert_eq!(artifact_id(&"be.735".to_string()), Some(735));
    assert_eq!(artifact_id(&"650.abcdef".to_string()), Some(650));
    assert_eq!(artifact_id(&"pre.alpha".to_string()), None);
    assert_eq!(artifact_id(&"be.99999999999.12".to_string()), Some(12));
    assert_eq!(artifact_id(&String::new()), None);
}

#[test]
fn target_tokens() {
    assert_eq!(GameType::UnityIL2CPP.to_string(), "Unity.IL2CPP");
    assert_eq!(GameType::UnityIL2CPP.file_token(), "UnityIL2CPP");
    assert_eq!(GameType::UnityMono.file_token(), "UnityMono");
    assert_eq!(GameArch::X86.to_string(), "x86");
    assert_eq!(ReleaseFlavor::BleedingEdge.to_string(), "Bleeding edge");
    assert_eq!(ReleaseFlavor::default(), ReleaseFlavor::Stable);
    assert_eq!(GameType::from_data_dir(true, true), Some(GameType::UnityMono));
    assert_eq!(GameType::from_data_dir(false, true), Some(GameType::UnityIL2CPP));
    assert_eq!(GameType::from_data_dir(false, false), None);
    let g = Game::default();
    assert_eq!(g.name, "Not selected");
    assert_eq!(g.arch, GameArch::X64);
}

fn image(machine: u16, header_at: u32, len: usize) -> Vec<u8> {
    let mut bytes = vec![0u8; len];
    bytes[60..64].copy_from_slice(&header_at.to_le_bytes());
    let at = header_at as usize;
    if at + 6 <= len {
        bytes[at + 4..at + 6].copy_from_slice(&machine.to_le_bytes());
    }
    bytes
}

#[test]
fn arch_from_pe_header() {
    assert_eq!(GameArch::from_image(&image(0x8664, 128, 256)), Some(GameArch::X64));
    assert_eq!(GameArch::from_image(&image(0x014c, 128, 256)), Some(GameArch::X86));
    assert_eq!(GameArch::from_image(&image(0x8664, 252, 256)), None);
    assert_eq!(GameArch::from_image(&image(0x8664, 0x8000_0000, 256)), None);
    assert_eq!(GameArch::from_image(&vec![0u8; 63]), None);
}
