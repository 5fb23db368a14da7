use agent_pin::cli::CliError;
use agent_pin::path::{components_of, inside_dir, strip_dir};
use agent_pin::push::{push_plan, PushAction, PushRun};

const DOC: &str = r#"{"version":1,"title":"T","blocks":[
    {"type":"markdown","content":"hi"},
    {"type":"image","path":"a.png"},
    {"type":"image"},
    {"type":"image","path":"/abs/b.jpg","caption":"c"}
]}"#;

fn expect_copy(a: &PushAction) -> String {
    match a {
        PushAction::CopyImage(p) => p.clone(),
        _ => panic!("expected an image to copy"),
    }
}

#[test]
fn push_plan_lists_image_blocks_in_order() {
    let (_doc, plan) = push_plan(DOC).unwrap();
    assert_eq!(plan, vec![(1, "a.png".to_string()), (3, "/abs/b.jpg".to_string())]);
    let (_doc, plan) = push_plan(r#"{"title":"no blocks"}"#).unwrap();
    assert!(plan.is_empty());
}

#[test]
fn push_refuses_text_that_is_not_json() {
    let e = push_plan("{not json").err().unwrap();
    assert_eq!(e.code, "INVALID_INPUT");
    assert!(e.message.starts_with("解析 Pin JSON 失败: "));
    assert!(e.message.len() > "解析 Pin JSON 失败: ".len());
    assert!(PushRun::start("").is_err());
}

#[test]
fn push_sends_the_stored_paths() {
    let (run, a) = PushRun::start(DOC).unwrap();
    assert_eq!(expect_copy(&a), "a.png");
    let (run, a) = run.image_copied(Ok(("/store/1.png".to_string(), Some("/store/1.png".to_string()))));
    assert_eq!(expect_copy(&a), "/abs/b.jpg");
    // already in the store: no new file
    let (run, a) = run.image_copied(Ok(("/store/old.jpg".to_string(), None)));
    let body = match a {
        PushAction::Send(b) => b,
        _ => panic!("expected the body"),
    };
    let v: serde_json::Value = serde_json::from_str(&body).unwrap();
    assert_eq!(v["blocks"][1]["path"], "/store/1.png");
    assert_eq!(v["blocks"][3]["path"], "/store/old.jpg");
    assert_eq!(v["blocks"][3]["caption"], "c");
    assert_eq!(v["blocks"][0]["content"], "hi");
    assert!(v["blocks"][2].get("path").is_none());
    assert_eq!(v["title"], "T");
    // a copy report now is out of order
    let (run, a) = run.image_copied(Ok(("x".to_string(), None)));
    assert!(matches!(a, PushAction::Nothing));
    let (_run, a) = run.sent(Ok(()));
    assert!(matches!(a, PushAction::Done));
}

#[test]
fn push_without_images_sends_at_once() {
    let (run, a) = PushRun::start(r#"{"title":"T","blocks":[{"type":"markdown","content":"x"}]}"#).unwrap();
    match a {
        PushAction::Send(b) => {
            let v: serde_json::Value = serde_json::from_str(&b).unwrap();
            assert_eq!(v["blocks"][0]["content"], "x");
        }
        _ => panic!("expected the body"),
    }
    let (_run, a) = run.sent(Err(CliError::new("NOT_RUNNING", "down".to_string())));
    match a {
        PushAction::CleanupAndFail(files, e) => {
            assert!(files.is_empty());
            assert_eq!(e.code, "NOT_RUNNING");
        }
        _ => panic!("expected a failure"),
    }
}

#[test]
fn a_failed_copy_removes_only_the_new_copies() {
    let (run, _) = PushRun::start(DOC).unwrap();
    let (run, _) = run.image_copied(Ok(("/store/1.png".to_string(), Some("/store/1.png".to_string()))));
    let (run, a) = run.image_copied(Err(CliError::new("IMAGE_NOT_FOUND", "missing".to_string())));
    match a {
        PushAction::CleanupAndFail(files, e) => {
            assert_eq!(files, vec!["/store/1.png".to_string()]);
            assert_eq!(e.code, "IMAGE_NOT_FOUND");
            assert_eq!(e.message, "missing");
        }
        _ => panic!("expected a failure"),
    }
    let (_run, a) = run.sent(Ok(()));
    assert!(matches!(a, PushAction::Nothing));
}

#[test]
fn a_failed_send_removes_only_the_new_copies() {
    let (run, _) = PushRun::start(DOC).unwrap();
    let (run, _) = run.image_copied(Ok(("/store/old.png".to_string(), None)));
    let (run, a) = run.image_copied(Ok(("/store/2.jpg".to_string(), Some("/store/2.jpg".to_string()))));
    assert!(matches!(a, PushAction::Send(_)));
    let (_run, a) = run.sent(Err(CliError::new("VALIDATION_ERROR", "bad".to_string())));
    match a {
        PushAction::CleanupAndFail(files, e) => {
            assert_eq!(files, vec!["/store/2.jpg".to_string()]);
            assert_eq!(e.code, "VALIDATION_ERROR");
        }
        _ => panic!("expected a failure"),
    }
}

#[test]
fn path_components_like_std() {
    assert_eq!(components_of("/a//b/./c/"), vec!["/", "a", "b", "c"]);
    assert_eq!(components_of("./a/../b"), vec![".", "a", "..", "b"]);
    assert_eq!(components_of("a/./b"), vec!["a", "b"]);
    assert!(components_of("").is_empty());
    for p in ["/a//b/./c/", "./a/../b", "a/./b", "/", "x"] {
        let std: Vec<String> = std::path::Path::new(p)
            .components()
            .map(|c| c.as_os_str().to_str().unwrap().to_string())
            .collect();
        assert_eq!(components_of(p), std, "{}", p);
    }
}

#[test]
fn inside_dir_by_whole_components() {
    assert!(inside_dir("/home/u/.agent-pin/images", "/home/u/.agent-pin/images/x.png"));
    assert!(inside_dir("/home/u/.agent-pin/images", "/home/u/.agent-pin/images"));
    assert!(!inside_dir("/home/u/.agent-pin/images", "/home/u/.agent-pin/images2/x.png"));
    assert!(!inside_dir("/home/u/.agent-pin/images", "/tmp/x.png"));
    assert!(inside_dir("/", "/tmp/x.png"));
    for (d, p) in [("/a/b", "/a/b/c"), ("/a/b", "/a/bc"), ("/a/b/", "/a/b//c"), ("a", "/a")] {
        assert_eq!(inside_dir(d, p), std::path::Path::new(p).starts_with(d), "{} {}", d, p);
    }
}

#[test]
fn strip_dir_gives_the_rest() {
    assert_eq!(strip_dir("/s/images", "/s/images/a/b.png"), Some("a/b.png".to_string()));
    assert_eq!(strip_dir("/s/images", "/s/images"), Some(String::new()));
    assert_eq!(strip_dir("/s/images", "/s/other/b.png"), None);
}
