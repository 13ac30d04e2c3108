use aceman::cli::{MigrateDownOpts, MigrateUpOpts};
use aceman::migration::MigrationError;

#[test]
fn up_target_defaults_to_newest() {
    assert_eq!(MigrateUpOpts { version: None }.target().unwrap(), None);
    assert_eq!(MigrateUpOpts { version: Some("1602335590".to_string()) }.target().unwrap(), Some(1602335590));
    assert!(matches!(
        MigrateUpOpts { version: Some("latest".to_string()) }.target(),
        Err(MigrationError::MalformedVersion)
    ));
}

#[test]
fn down_target_zero_means_before_the_first_migration() {
    assert_eq!(MigrateDownOpts { version: "0".to_string() }.target().unwrap(), None);
    assert_eq!(
        MigrateDownOpts { version: "1602334616_create_operators".to_string() }.target().unwrap(),
        Some(1602334616)
    );
    assert!(matches!(
        MigrateDownOpts { version: "".to_string() }.target(),
        Err(MigrationError::MalformedVersion)
    ));
}
