use ai::chat::{
    endpoint_url, fetch_command, host_of, interpret_reply, is_local_proxy, is_openai_url, prepare_request,
    ChatResponse, Choice, Reply, Request, ResponseMessage, SYSTEM_PROMPT,
};
use ai::config::{Config, DEFAULT_BASE_URL, DEFAULT_MODEL};

const USER_CONFIG: &str = "/home/user/.config/ai/config.toml";
const SERVER: &str = "http://127.0.0.1:1234";

fn test_config(base_url: &str) -> Config {
    Config {
        api_key: Some("test-key".to_string()),
        base_url: base_url.to_string(),
        model: "gpt-4o-mini".to_string(),
    }
}

fn config_without_key(base_url: &str) -> Config {
    Config {
        api_key: None,
        base_url: base_url.to_string(),
        model: "test-model".to_string(),
    }
}

fn answer(contents: &[&str]) -> Reply {
    Reply::Answer(ChatResponse {
        choices: contents
            .iter()
            .map(|content| Choice {
                message: ResponseMessage {
                    content: content.to_string(),
                },
            })
            .collect(),
    })
}

fn ok_body(content: &str) -> Reply {
    answer(&[content])
}

fn header<'a>(request: &'a Request, name: &str) -> Option<&'a str> {
    request
        .headers
        .iter()
        .find(|header| header.name.eq_ignore_ascii_case(name))
        .map(|header| header.value.as_str())
}

/// A server that answers requests posted to its endpoint, and no others.
fn serve(request: &Request, reply: Reply) -> Reply {
    if request.url == format!("{SERVER}/chat/completions") {
        reply
    } else {
        Reply::Refused {
            status: 501,
            body: String::new(),
        }
    }
}

#[test]
fn is_local_proxy_127() {
    assert!(is_local_proxy("http://127.0.0.1:8742/api/v1"));
    assert!(is_local_proxy("http://127.0.0.1/api"));
}

#[test]
fn is_local_proxy_localhost() {
    assert!(is_local_proxy("http://localhost:8742/api/v1"));
    assert!(is_local_proxy("http://localhost/api"));
}

#[test]
fn is_local_proxy_false_for_remote() {
    assert!(!is_local_proxy("https://api.openai.com/v1"));
    assert!(!is_local_proxy("http://example.com/api"));
}

#[test]
fn is_openai_url_default() {
    assert!(is_openai_url(DEFAULT_BASE_URL));
}

#[test]
fn is_openai_url_variants() {
    assert!(is_openai_url("https://api.openai.com/v1"));
    assert!(is_openai_url("https://api.openai.com/v2"));
}

#[test]
fn is_openai_url_false_for_others() {
    assert!(!is_openai_url("http://127.0.0.1:8742/api/v1"));
    assert!(!is_openai_url("https://api.anthropic.com/v1"));
}

#[test]
fn missing_api_key_returns_err() {
    let config = Config {
        api_key: None,
        base_url: DEFAULT_BASE_URL.to_string(),
        model: DEFAULT_MODEL.to_string(),
    };
    let err = fetch_command(&config, "list files", USER_CONFIG, |_: &Request| {
        panic!("nothing is to be sent")
    })
    .unwrap_err();
    assert!(err.contains("API key not set"), "got: {err}");
    assert_eq!(
        err,
        "API key not set. Add api_key to /home/user/.config/ai/config.toml or set AI_API_KEY."
    );
}

#[test]
fn success_plain_response() {
    assert_eq!(
        fetch_command(&test_config(SERVER), "list files", USER_CONFIG, |request: &Request| {
            serve(request, ok_body("ls -la"))
        }),
        Ok("ls -la".to_string())
    );
}

#[test]
fn success_strips_markdown_fence() {
    assert_eq!(
        fetch_command(&test_config(SERVER), "list files", USER_CONFIG, |request: &Request| {
            serve(request, ok_body("```bash\nls -la\n```"))
        }),
        Ok("ls -la".to_string())
    );
}

#[test]
fn api_returns_401() {
    let err = fetch_command(&test_config(SERVER), "list files", USER_CONFIG, |request: &Request| {
        serve(
            request,
            Reply::Refused {
                status: 401,
                body: "Unauthorized".to_string(),
            },
        )
    })
    .unwrap_err();
    assert!(err.starts_with("API error 401"), "got: {err}");
    assert_eq!(err, "API error 401: Unauthorized");
}

#[test]
fn api_returns_500() {
    let err = fetch_command(&test_config(SERVER), "list files", USER_CONFIG, |request: &Request| {
        serve(
            request,
            Reply::Refused {
                status: 500,
                body: "Internal Server Error".to_string(),
            },
        )
    })
    .unwrap_err();
    assert!(err.starts_with("API error 500"), "got: {err}");
}

#[test]
fn empty_choices_returns_err() {
    let err = fetch_command(&test_config(SERVER), "list files", USER_CONFIG, |request: &Request| {
        serve(request, answer(&[]))
    })
    .unwrap_err();
    assert_eq!(err, "Model returned an empty response.");
}

#[test]
fn whitespace_only_content_returns_err() {
    let err = fetch_command(&test_config(SERVER), "list files", USER_CONFIG, |request: &Request| {
        serve(request, ok_body("   "))
    })
    .unwrap_err();
    assert_eq!(err, "Model returned an empty response.");
}

#[test]
fn malformed_json_returns_err() {
    let err = fetch_command(&test_config(SERVER), "list files", USER_CONFIG, |request: &Request| {
        serve(request, Reply::Malformed("not json".to_string()))
    })
    .unwrap_err();
    assert!(err.starts_with("Failed to parse response"), "got: {err}");
    assert_eq!(err, "Failed to parse response: not json");
}

#[test]
fn trailing_slash_in_base_url_is_normalised() {
    let url_with_slash = format!("{}/", SERVER);
    assert_eq!(
        fetch_command(&test_config(&url_with_slash), "list files", USER_CONFIG, |request: &Request| {
            serve(request, ok_body("ls -la"))
        }),
        Ok("ls -la".to_string())
    );
}

#[test]
fn sends_correct_model_in_body() {
    let config = Config {
        api_key: Some("test-key".to_string()),
        base_url: SERVER.to_string(),
        model: "custom-model".to_string(),
    };
    let result = fetch_command(&config, "list files", USER_CONFIG, |request: &Request| {
        assert_eq!(request.body.model, "custom-model");
        serve(request, ok_body("ls -la"))
    });
    assert!(result.is_ok());
}

#[test]
fn sends_authorization_header() {
    let result = fetch_command(&test_config(SERVER), "list files", USER_CONFIG, |request: &Request| {
        assert_eq!(header(request, "authorization"), Some("Bearer test-key"));
        serve(request, ok_body("ls -la"))
    });
    assert!(result.is_ok());
}

#[test]
fn missing_api_key_non_openai_succeeds() {
    let config = config_without_key(SERVER);
    let result = fetch_command(&config, "list files", USER_CONFIG, |request: &Request| {
        serve(request, ok_body("ls -la"))
    });
    assert!(result.is_ok(), "expected success, got: {:?}", result);
}

#[test]
fn missing_api_key_openai_url_returns_err() {
    let config = config_without_key(DEFAULT_BASE_URL);
    let err = fetch_command(&config, "list files", USER_CONFIG, |request: &Request| {
        serve(request, ok_body("ls -la"))
    })
    .unwrap_err();
    assert!(err.contains("API key not set"), "got: {err}");
}

#[test]
fn no_auth_header_when_key_missing() {
    let config = config_without_key(SERVER);
    let result = fetch_command(&config, "list files", USER_CONFIG, |request: &Request| {
        assert_eq!(header(request, "authorization"), None);
        serve(request, ok_body("ls -la"))
    });
    assert!(result.is_ok(), "expected success, got: {:?}", result);
}

#[test]
fn local_proxy_connection_error_shows_friendly_message() {
    let config = Config {
        api_key: None,
        base_url: "http://127.0.0.1:59999/api/v1".to_string(),
        model: "test-model".to_string(),
    };
    let err = fetch_command(&config, "list files", USER_CONFIG, |_: &Request| {
        Reply::Unreachable("Connection refused".to_string())
    })
    .unwrap_err();
    assert!(
        err.contains("hpc-job-analyst proxy"),
        "expected friendly message, got: {err}"
    );
    assert!(
        err.contains("analyze-job proxy status"),
        "expected hint, got: {err}"
    );
    assert_eq!(
        err,
        "Cannot reach the hpc-job-analyst proxy at http://127.0.0.1:59999/api/v1.\nCheck that the proxy service is running:\n\n    analyze-job proxy status"
    );
}

#[test]
fn remote_connection_error_tells_why() {
    assert_eq!(
        interpret_reply("https://a.io/v1", &Reply::Unreachable("timed out".to_string())),
        Err("Connection failed: timed out".to_string())
    );
}

#[test]
fn the_first_completion_counts() {
    assert_eq!(
        interpret_reply(SERVER, &answer(&["ls -la", "dir"])),
        Ok("ls -la".to_string())
    );
    assert_eq!(
        interpret_reply(SERVER, &answer(&["", "dir"])),
        Err("Model returned an empty response.".to_string())
    );
}

#[test]
fn request_holds_instructions_and_description() {
    let request = prepare_request(&test_config("https://a.io/v1//"), "list files", USER_CONFIG).unwrap();
    assert_eq!(request.url, "https://a.io/v1/chat/completions");
    assert_eq!(header(&request, "content-type"), Some("application/json"));
    assert_eq!(request.headers.len(), 2);
    assert_eq!(request.body.temperature, 0);
    assert_eq!(request.body.max_tokens, 500);
    assert_eq!(request.body.messages.len(), 2);
    assert_eq!(request.body.messages[0].role, "system");
    assert_eq!(request.body.messages[0].content, SYSTEM_PROMPT);
    assert_eq!(request.body.messages[1].role, "user");
    assert_eq!(request.body.messages[1].content, "list files");
}

#[test]
fn instructions_for_the_model() {
    assert_eq!(
        SYSTEM_PROMPT,
        "You are a Linux shell command assistant. When the user describes what they want \
         to do, respond with ONLY the shell command that accomplishes it. Do not include \
         any explanation, markdown, code fences, backticks, or extra text. Output only \
         the bare command, ready to paste and run."
    );
}

#[test]
fn key_is_sent_to_the_openai_api() {
    let request = prepare_request(&test_config(DEFAULT_BASE_URL), "x", USER_CONFIG).unwrap();
    assert_eq!(request.url, "https://api.openai.com/v1/chat/completions");
    assert_eq!(header(&request, "authorization"), Some("Bearer test-key"));
}

#[test]
fn slashes_at_the_end_of_the_base_url() {
    assert_eq!(endpoint_url("http://a"), "http://a/chat/completions");
    assert_eq!(endpoint_url("http://a/"), "http://a/chat/completions");
    assert_eq!(endpoint_url("http://a//"), "http://a/chat/completions");
    assert_eq!(endpoint_url(""), "/chat/completions");
}

#[test]
fn local_proxies_take_no_key() {
    for url in ["http://127.0.0.1:8742/api/v1", "http://localhost:11434/v1"] {
        assert!(prepare_request(&config_without_key(url), "x", USER_CONFIG).is_ok());
    }
}

#[test]
fn host_of_a_url() {
    assert_eq!(host_of("localhost"), "localhost");
    assert_eq!(host_of("localhost:8742/api/v1"), "localhost");
    assert_eq!(host_of("a.io/v1?x=1#y"), "a.io");
    assert_eq!(host_of("a.io?x=/"), "a.io");
    assert_eq!(host_of("a.io#@b.io"), "a.io");
    assert_eq!(host_of("user:secret@a.io:80/v1"), "a.io");
    assert_eq!(host_of("localhost./v1"), "localhost");
    assert_eq!(host_of("localhost.:80"), "localhost");
    assert_eq!(host_of("localhost.."), "localhost.");
    assert_eq!(host_of("localhost\\v1"), "localhost");
    assert_eq!(host_of("."), "");
    assert_eq!(host_of(""), "");
}

#[test]
fn local_proxy_is_told_by_its_host() {
    for url in [
        "http://localhost",
        "http://localhost?x",
        "http://127.0.0.1#x",
        "http://localhost/",
        "http://localhost./v1",
        "http://localhost.:8742/v1",
        "http://127.0.0.1./v1",
        "http://localhost\\v1",
        "http://localhost\n",
        "http://localhost\t:80/v1",
    ] {
        assert!(is_local_proxy(url), "{url}");
    }
    for url in [
        "http://localhost.example.com/v1",
        "http://127.0.0.10/v1",
        "http://localhost:x@example.com/v1",
        "http://localhos",
        "http://localhost../v1",
        "http://localhost.example.com./v1",
        "http://localhost\n.example.com/v1",
        "https://localhost/v1",
        "",
    ] {
        assert!(!is_local_proxy(url), "{url}");
    }
}

#[test]
fn openai_api_is_told_by_its_host() {
    assert!(is_openai_url("https://api.openai.com"));
    assert!(is_openai_url("https://api.openai.com:443/v1"));
    assert!(is_openai_url("https://api.openai.com./v1"));
    assert!(is_openai_url("https://api.openai.com\\v1"));
    assert!(!is_openai_url("https://api.openai.com.example.org/v1"));
    assert!(!is_openai_url("http://api.openai.com/v1"));
    assert!(!is_openai_url("https://example.org/https://api.openai.com"));
}

#[test]
fn remote_host_with_a_local_name_in_front() {
    assert_eq!(
        interpret_reply(
            "http://localhost.example.com/v1",
            &Reply::Unreachable("timed out".to_string())
        ),
        Err("Connection failed: timed out".to_string())
    );
}

#[test]
fn slash_makes_no_difference_to_the_request() {
    let plain = prepare_request(&test_config("https://api.openai.com"), "x", USER_CONFIG).unwrap();
    let slashed = prepare_request(&test_config("https://api.openai.com/"), "x", USER_CONFIG).unwrap();
    assert_eq!(format!("{plain:?}"), format!("{slashed:?}"));
    assert!(prepare_request(&config_without_key("https://api.openai.com"), "x", USER_CONFIG).is_err());
    assert!(prepare_request(&config_without_key("https://api.openai.com/"), "x", USER_CONFIG).is_err());
}
