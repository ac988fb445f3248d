use pacquet_package_manager::install::{choose_install_mode, included_dependencies, InstallError, InstallMode};
use pacquet_package_manager::package_manifest::DependencyGroup;
use pacquet_package_manager::validate_modules::IncludedDependencies;

#[test]
fn included_groups() {
    assert_eq!(
        included_dependencies(&[DependencyGroup::Prod, DependencyGroup::Optional]),
        IncludedDependencies { dependencies: true, dev_dependencies: false, optional_dependencies: true },
    );
    assert_eq!(
        included_dependencies(&[]),
        IncludedDependencies { dependencies: false, dev_dependencies: false, optional_dependencies: false },
    );
}

#[test]
fn install_modes() {
    assert_eq!(choose_install_mode(true, false, true, None, true), Err(InstallError::NoLockfile));
    assert_eq!(
        choose_install_mode(true, true, false, None, true),
        Err(InstallError::NoImporter { importer_id: ".".to_string() }),
    );
    assert_eq!(
        choose_install_mode(true, true, true, Some("specifiers differ".to_string()), true),
        Err(InstallError::OutdatedLockfile { reason: "specifiers differ".to_string() }),
    );
    assert_eq!(choose_install_mode(true, true, true, None, false), Ok(InstallMode::FrozenLockfile));
    assert_eq!(choose_install_mode(false, true, true, None, true), Err(InstallError::UnsupportedLockfileMode));
    assert_eq!(choose_install_mode(false, false, false, None, false), Ok(InstallMode::WithoutLockfile));
}
