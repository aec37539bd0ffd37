use turtl_core::error::TError;
use turtl_core::json;
use turtl_core::json::Json;
use turtl_core::startup::{config_or_empty, folder_config_path, init, process_runtime_config, start, Start, Started};

fn failed() -> TError {
    TError::Msg(String::from("failed"))
}

fn is_failed<T>(r: &Result<T, TError>) -> bool {
    match r {
        Err(TError::Msg(m)) => m == "failed",
        _ => false,
    }
}

#[test]
fn inits() {
    assert!(init(Ok(())).is_ok());
    assert!(is_failed(&init(Err(String::from("failed")))));
}

#[test]
fn reads_the_runtime_config() {
    let v = process_runtime_config(r#"{"messaging":{"reqres_append_mid":true}}"#);
    assert_eq!(json::stringify(&v).unwrap(), r#"{"messaging":{"reqres_append_mid":true}}"#);
    assert_eq!(json::stringify(&process_runtime_config("not json")).unwrap(), "{}");
    assert_eq!(json::stringify(&process_runtime_config("")).unwrap(), "{}");
    assert_eq!(json::stringify(&config_or_empty(None)).unwrap(), "{}");
    assert!(matches!(config_or_empty(Some(Json::Null)), Json::Null));
}

#[test]
fn comes_up_with_a_folder() {
    let step = start("{}");
    match &step {
        Start::Configure(v) => assert_eq!(json::stringify(v).unwrap(), "{}"),
        _ => panic!("the configuration comes first"),
    }
    let step = step.next(Started::Served(Ok(()))).next(Started::Configured);
    assert!(matches!(step, Start::ReadFolder));
    assert_eq!(folder_config_path(), "data_folder");
    let step = step.next(Started::Folder(Ok(String::from("/tmp/turtl"))));
    match &step {
        Start::CreateFolder(f) => assert_eq!(f, "/tmp/turtl"),
        _ => panic!("the folder comes next"),
    }
    let step = step.next(Started::FolderCreated(Ok(())));
    assert!(matches!(step, Start::CreateTurtl));
    let step = step.next(Started::TurtlCreated(Ok(())));
    assert!(matches!(step, Start::Serve));
    let step = step.next(Started::Served(Err(failed())));
    assert!(matches!(step, Start::Down(Ok(()))));
    let step = step.next(Started::Configured);
    assert!(matches!(step, Start::Down(Ok(()))));
}

#[test]
fn comes_up_in_memory() {
    let step = start("{}").next(Started::Configured);
    let step = step.next(Started::Folder(Ok(String::from(":memory:"))));
    assert!(matches!(step, Start::CreateTurtl));
}

#[test]
fn the_first_error_brings_it_down() {
    let up = || start("{}").next(Started::Configured);
    let folder = || up().next(Started::Folder(Ok(String::from("f"))));
    match up().next(Started::Folder(Err(failed()))) {
        Start::Down(r) => assert!(is_failed(&r)),
        _ => panic!("no folder"),
    }
    match folder().next(Started::FolderCreated(Err(failed()))) {
        Start::Down(r) => assert!(is_failed(&r)),
        _ => panic!("folder not created"),
    }
    match folder().next(Started::FolderCreated(Ok(()))).next(Started::TurtlCreated(Err(failed()))) {
        Start::Down(r) => assert!(is_failed(&r)),
        _ => panic!("state not created"),
    }
}
