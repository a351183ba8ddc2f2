use rkazumi_core::middleware::MiddlewareChain;

#[test]
fn test_middleware_chain() {
    let mut chain = MiddlewareChain::new();
    chain.add(|s| format!("prefix_{}", s));
    chain.add(|s| format!("{}", s.to_uppercase()));
    assert_eq!(chain.execute("test"), "prefix_TEST");
}

#[test]
fn test_logging_middleware() {
    let mut chain = MiddlewareChain::new();
    chain.add(|s| {
        println!("[Middleware] Input length: {}", s.len());
        s.to_string()
    });
    let result = chain.execute("hello");
    assert_eq!(result, "hello");
}

#[test]
fn empty_chain_returns_input_unchanged() {
    let chain = MiddlewareChain::new();
    assert_eq!(chain.execute("unchanged"), "unchanged");
    assert_eq!(chain.execute(""), "");
}

#[test]
fn last_added_stage_runs_first() {
    let mut chain = MiddlewareChain::new();
    chain.add(|s| format!("{}a", s));
    chain.add(|s| format!("{}b", s));
    chain.add(|s| format!("{}c", s));
    assert_eq!(chain.execute(">"), ">cba");
}
