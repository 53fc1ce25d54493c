use azure_pim_cli::activate::RequestFailed;
use azure_pim_cli::activate::Concurrency;
use azure_pim_cli::backend::{
    judge, Method, Operation, Request, RequestBuilder, TokenCache, TokenScope, Validator,
};
use azure_pim_cli::json::{parse_json, Json};
use azure_pim_cli::retry::{
    classify, Attempt, RequestError, Retry, RetryCause, Step, Verdict, RETRY_COUNT,
};
use azure_pim_cli::models::scope::Scope;

fn pair(a: &str, b: &str) -> (String, String) {
    (a.to_string(), b.to_string())
}

#[test]
fn operations_have_names_and_versions() {
    let all = [
        (Operation::RoleAssignments, "roleAssignments", "2022-04-01"),
        (Operation::RoleDefinitions, "roleDefinitions", "2022-04-01"),
        (Operation::RoleAssignmentScheduleInstances, "roleAssignmentScheduleInstances", "2020-10-01"),
        (Operation::RoleEligibilityScheduleInstances, "roleEligibilityScheduleInstances", "2020-10-01"),
        (Operation::RoleAssignmentScheduleRequests, "roleAssignmentScheduleRequests", "2020-10-01"),
        (Operation::RoleEligibilityScheduleRequests, "roleEligibilityScheduleRequests", "2020-10-01"),
        (Operation::EligibleChildResources, "eligibleChildResources", "2020-10-01"),
    ];
    for (operation, name, version) in all {
        assert_eq!(operation.as_str(), name);
        assert_eq!(operation.api_version(), version);
        assert_eq!(operation.token_scope(), TokenScope::Management);
    }
    assert_eq!(
        TokenScope::Management.to_scope_endpoint(),
        "https://management.core.windows.net/.default"
    );
    assert_eq!(TokenScope::Graph.to_scope_endpoint(), "https://graph.microsoft.com/.default");
    assert_eq!(Method::Get.as_str(), "GET");
    assert_eq!(Method::Put.as_str(), "PUT");
    assert_eq!(Method::Post.as_str(), "POST");
    assert_eq!(Method::Delete.as_str(), "DELETE");
}

#[test]
fn build_puts_the_request_together() {
    let body = parse_json(r#"{"a": 1}"#).unwrap();
    let request = RequestBuilder::new(Method::Put, Operation::RoleAssignmentScheduleRequests)
        .extra("/abc".to_string())
        .scope(Scope::new("/subscriptions/s1").unwrap())
        .query("$filter", "asTarget()")
        .query("x", "y")
        .json(body.clone())
        .validate(Validator::ActivationResponse)
        .build();
    assert_eq!(
        request,
        Request {
            method: Method::Put,
            url: "https://management.azure.com/subscriptions/s1/providers/Microsoft.Authorization/roleAssignmentScheduleRequests/abc".to_string(),
            query: vec![pair("api-version", "2020-10-01"), pair("$filter", "asTarget()"), pair("x", "y")],
            headers: vec![pair("X-Ms-Command-Name", "Microsoft_Azure_PIMCommon.")],
            token_scope: TokenScope::Management,
            body: Some(body),
            validate: Some(Validator::ActivationResponse),
        }
    );
}

#[test]
fn build_without_scope_asks_at_the_root() {
    let request = RequestBuilder::new(Method::Get, Operation::RoleDefinitions).build();
    assert_eq!(
        request.url,
        "https://management.azure.com/providers/Microsoft.Authorization/roleDefinitions"
    );
    assert_eq!(request.query, vec![pair("api-version", "2022-04-01")]);
    assert_eq!(request.body, None);
    assert_eq!(request.validate, None);
}

#[test]
fn without_a_validator_the_status_decides() {
    let body = parse_json(r#"{"error": {"code": "RoleAssignmentExists"}}"#).unwrap();
    assert_eq!(judge(None, 200, &body), Ok(()));
    assert_eq!(judge(None, 400, &body), Err(RequestFailed { status: 400, body: body.clone() }));
    assert_eq!(judge(Some(Validator::ActivationResponse), 400, &body), Ok(()));
    assert!(judge(Some(Validator::ActivationResponse), 404, &body).is_err());
}

#[test]
fn classify_sorts_attempts() {
    let body = parse_json(r#"{"value": []}"#).unwrap();
    assert_eq!(classify(Attempt::TransportFailed, None), Verdict::Retry(RetryCause::Transport));
    assert_eq!(
        classify(Attempt::Answer { status: 429, body: Some(body.clone()) }, None),
        Verdict::Retry(RetryCause::RateLimited)
    );
    assert_eq!(
        classify(Attempt::Answer { status: 429, body: None }, Some(Validator::ActivationResponse)),
        Verdict::Retry(RetryCause::RateLimited)
    );
    assert_eq!(
        classify(Attempt::Answer { status: 200, body: None }, None),
        Verdict::Fatal(RequestError::InvalidBody { status: 200 })
    );
    assert_eq!(
        classify(Attempt::Answer { status: 200, body: Some(body.clone()) }, None),
        Verdict::Success(body.clone())
    );
    assert_eq!(
        classify(Attempt::Answer { status: 500, body: Some(body.clone()) }, None),
        Verdict::Fatal(RequestError::Refused(RequestFailed { status: 500, body: body.clone() }))
    );
    let exists = parse_json(r#"{"error": {"code": "RoleAssignmentRequestExists"}}"#).unwrap();
    assert_eq!(
        classify(
            Attempt::Answer { status: 400, body: Some(exists.clone()) },
            Some(Validator::ActivationResponse)
        ),
        Verdict::Success(exists.clone())
    );
    assert!(matches!(
        classify(Attempt::Answer { status: 400, body: Some(exists) }, None),
        Verdict::Fatal(RequestError::Refused(_))
    ));
    assert_eq!(RequestError::InvalidBody { status: 1 }.message(), "response body is not valid JSON");
    assert_eq!(RequestError::Exhausted { last: None }.message(), "exhausted retries");
}

#[test]
fn a_request_is_given_ten_attempts() {
    let mut retry = Retry::new();
    let mut sends = 1;
    loop {
        match retry.after(Verdict::Retry(RetryCause::RateLimited)) {
            Step::Send { wait_millis } => {
                // the wait carries jitter but is never shorter than a second
                assert!(wait_millis >= 1000);
                sends += 1;
            }
            Step::Finish(result) => {
                assert_eq!(
                    result,
                    Err(RequestError::Exhausted { last: Some(RetryCause::RateLimited) })
                );
                break;
            }
        }
        assert!(sends <= RETRY_COUNT);
    }
    assert_eq!(sends, RETRY_COUNT);
    assert_eq!(sends, 10);
}

#[test]
fn a_verdict_ends_the_request() {
    let mut retry = Retry::new();
    assert_eq!(retry.after(Verdict::Success(Json::Null)), Step::Finish(Ok(Json::Null)));
    let mut retry = Retry::new();
    assert!(matches!(retry.after(Verdict::Retry(RetryCause::Transport)), Step::Send { .. }));
    assert_eq!(
        retry.after(Verdict::Fatal(RequestError::InvalidBody { status: 502 })),
        Step::Finish(Err(RequestError::InvalidBody { status: 502 }))
    );
}

#[test]
fn a_token_is_stored_once_for_each_audience() {
    let mut cache = TokenCache::new();
    assert_eq!(cache.get(TokenScope::Management), None);
    assert_eq!(cache.insert(TokenScope::Management, "first".to_string()), "first");
    assert_eq!(cache.get(TokenScope::Management), Some("first".to_string()));
    assert_eq!(cache.get(TokenScope::Graph), None);
    // a second token for the same audience does not replace the first
    assert_eq!(cache.insert(TokenScope::Management, "second".to_string()), "first");
    assert_eq!(cache.insert(TokenScope::Graph, "graph".to_string()), "graph");
    assert_eq!(cache.get(TokenScope::Management), Some("first".to_string()));
    assert_eq!(cache.get(TokenScope::Graph), Some("graph".to_string()));
}

#[test]
fn the_first_batch_fixes_the_concurrency() {
    let mut limit = Concurrency::new();
    assert_eq!(limit.configure(4), 4);
    assert_eq!(limit.configure(9), 4);
    assert_eq!(limit.configure(0), 4);
    let mut limit = Concurrency::new();
    assert_eq!(limit.configure(0), 1);
    assert_eq!(limit.configure(5), 1);
}
