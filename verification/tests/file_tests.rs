use jsonconfig::config::{Config, ConfigFile};
use jsonconfig::errors::ConfigError;
use jsonconfig::sample::SampleConfig;

#[test]
fn config_file() {
    let rt = tokio::runtime::Builder::new_current_thread()
        .enable_all()
        .build()
        .unwrap();
    rt.block_on(async {
        let path = <SampleConfig as ConfigFile>::path();
        // The scoped cleanup guard of a test fixture: the target must be
        // absent before the test, and is removed before the assertions.
        assert!(
            !tokio::fs::try_exists(&path).await.unwrap(),
            "stale file at the bound path"
        );

        let mut config_file = Config::<SampleConfig>::default();
        config_file.get_mut().hello = "goodbye".to_string();

        // Save: write the exact contents the library fixes for this type.
        let text = config_file.to_file_contents().unwrap();
        tokio::fs::write(&path, text).await.unwrap();

        // Load: read the bound path back and decode it.
        let read = tokio::fs::read_to_string(&path).await.unwrap();
        let config_file_loaded = Config::<SampleConfig>::from_json_str(&read).unwrap();

        let removed = tokio::fs::remove_file(&path).await;
        assert!(removed.is_ok());

        assert_eq!(config_file, config_file_loaded, "ConfigFile load/save");
        assert_ne!(Config::<SampleConfig>::default(), config_file_loaded);
    });
}

#[test]
fn sample_binding_is_pretty() {
    assert_eq!(<SampleConfig as ConfigFile>::path(), "/tmp/sample_config.json");
    assert!(<SampleConfig as ConfigFile>::pretty());
    let wrapped = Config::<SampleConfig>::default();
    assert_eq!(
        wrapped.to_file_contents().unwrap(),
        wrapped.to_json_pretty().unwrap()
    );
}

#[test]
fn load_missing_file() {
    let rt = tokio::runtime::Builder::new_current_thread()
        .enable_all()
        .build()
        .unwrap();
    rt.block_on(async {
        let path = "jsonconfig_missing_fixture.json";
        assert!(!tokio::fs::try_exists(path).await.unwrap());

        // A load is a read of the bound path followed by a decode; a read
        // failure surfaces as IoError, as the application's loader maps it.
        let outcome: Result<Config<SampleConfig>, ConfigError> =
            match tokio::fs::read_to_string(path).await {
                Ok(text) => Config::from_json_str(&text),
                Err(_) => Err(ConfigError::IoError),
            };
        assert_eq!(outcome.unwrap_err(), ConfigError::IoError);

        // The failed load must not create the file as a side effect.
        assert!(!tokio::fs::try_exists(path).await.unwrap());
    });
}
