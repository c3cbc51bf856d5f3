use data_pipeline::mongo::{MongoDbConfiguration, COLLECTIONS};

#[test]
fn collections() {
    let program = MongoDbConfiguration::new(COLLECTIONS);
    let collections = program.collections;
    for (i, record) in collections.iter().enumerate() {
        let index = program.choose_collection(Some(record.to_string()));
        assert_eq!(i, index);
    }
}

#[test]
fn mod_fs_config() {
    let program = MongoDbConfiguration::new(COLLECTIONS);
    let collection = String::from("test");
    let cwd = String::from("/home/operator/workspace");
    let config = program.fs_config(cwd, collection.clone());

    let json_base_path = String::from("/.data/output/github/");
    let partial_json_data_dir = json_base_path + &collection + "/";
    assert!(config.json_data_dir.contains(&partial_json_data_dir));
}
