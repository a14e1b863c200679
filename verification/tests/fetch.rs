use memoir::fetch::extract::{
    choose_body, choose_description, choose_title, extract, extract_json_field, is_auth_wall,
    is_paywall, meta_description, settle_body, text_of_nodes,
};
use memoir::fetch::recipe::{
    extract_recipe_object, extract_recipe_schema, find_recipe, first_recipe_of, llm_recipe_json,
    looks_like_recipe, parse_iso_duration, recipe_extract_prompt, url_host,
};
use memoir::fetch::{
    favicon_answer, favicon_target, fetch_step, FetchAction, FetchEvent, FetchResult, FetchStage,
};
use memoir::json::{parse_json, Json};

#[test]
fn extracts_title() {
    let page = extract("<html><head><title>Hello World</title></head><body>x</body></html>");
    assert_eq!(page.title, "Hello World");
}

#[test]
fn normalises_whitespace_in_title() {
    let page =
        extract("<html><head><title>  Hello\n  World  </title></head><body>x</body></html>");
    assert_eq!(page.title, "Hello World");
}

#[test]
fn prefers_main_over_body() {
    let page = extract(
        "<html><body><nav>Nav junk</nav>\
         <main>Main content about the Rust programming language and its features</main>\
         </body></html>",
    );
    assert!(
        page.body.contains("Rust programming language"),
        "got: {}",
        page.body
    );
    assert!(!page.body.contains("Nav junk"), "nav should be excluded");
}

#[test]
fn falls_back_to_body() {
    let page = extract(
        "<html><body><p>Some body text here and more words that go well past fifty characters</p></body></html>",
    );
    assert!(page.body.contains("body text"));
}

#[test]
fn auth_wall_detected_by_login_url() {
    assert!(is_auth_wall("https://example.com/login", ""));
    assert!(is_auth_wall("https://example.com/signin", ""));
    assert!(!is_auth_wall("https://example.com/about", ""));
}

#[test]
fn auth_wall_detected_by_password_field() {
    assert!(is_auth_wall(
        "https://example.com/secure",
        r#"<form><input type="password" name="pw"></form>"#
    ));
    assert!(!is_auth_wall(
        "https://example.com/about",
        "<p>No forms here</p>"
    ));
}

#[test]
fn walls_are_found_in_any_case() {
    assert!(is_auth_wall("https://example.com/LOGIN", ""));
    assert!(is_auth_wall("https://e.com/", "<INPUT TYPE='PASSWORD'>"));
    assert!(is_paywall("Subscribe To Continue"));
    assert!(is_paywall("<div id='paywall'>"));
    assert!(is_paywall("\"isAccessibleForFree\": \"False\""));
    assert!(!is_paywall("<p>Free for all</p>"));
}

#[test]
fn sparse_pages_fall_back_to_their_descriptions() {
    let html = r#"<html><head><meta name="description" content="  A short description  ">
        </head><body>x</body></html>"#;
    assert_eq!(extract(html).body, "A short description");
    let both = r#"<html><head><meta name="description" content="second">
        <meta property="og:description" content="first"></head><body>x</body></html>"#;
    assert_eq!(meta_description(both), Some("first".to_string()));
    let embedded = r#"<html><body>x<script>{"shortDescription":"one\ntwo A more than twenty bytes"}</script></body></html>"#;
    assert_eq!(extract(embedded).body, "one\ntwo A more than twenty bytes");
    assert_eq!(extract("<html><body>tiny</body></html>").body, "");
}

#[test]
fn text_nodes_are_evened_out() {
    let nodes = vec![" a\n b ".to_string(), "  ".to_string(), "c".to_string()];
    assert_eq!(text_of_nodes(&nodes), "a b c");
    assert_eq!(choose_title(&vec![vec![" x ".to_string(), "y".to_string()]]), "x y");
    assert_eq!(choose_title(&Vec::new()), "");
}

#[test]
fn the_first_long_text_is_taken() {
    let short = vec![vec!["x".repeat(50)]];
    let long = vec![vec!["y".repeat(51)], vec!["z".repeat(60)]];
    assert_eq!(choose_body(&vec![Vec::new(), short.clone(), long]), "y".repeat(51));
    assert_eq!(choose_body(&vec![short]), "");
}

#[test]
fn the_first_description_that_is_not_blank_is_taken() {
    let found = vec![
        vec![Some("  ".to_string()), Some("never".to_string())],
        vec![None],
        vec![Some(" yes ".to_string())],
    ];
    assert_eq!(choose_description(&found), Some("yes".to_string()));
    assert_eq!(choose_description(&Vec::new()), None);
}

#[test]
fn long_visible_text_wins() {
    let long = "w".repeat(200);
    assert_eq!(settle_body(long.clone(), Some("e".into()), Some("m".into())), long);
    assert_eq!(settle_body("v".into(), Some("e".into()), Some("m".into())), "e");
    assert_eq!(settle_body("v".into(), None, Some("m".into())), "m");
    assert_eq!(settle_body("v".into(), None, None), "v");
}

#[test]
fn string_fields_are_decoded() {
    let html = r#"x "f":"tab\there \"quoted\" \\ \q é end of it" y"#;
    assert_eq!(
        extract_json_field(html, "f"),
        Some("tab\there \"quoted\" \\ \\q é end of it".to_string())
    );
    assert_eq!(extract_json_field(r#""f":"too short""#, "f"), None);
    assert_eq!(extract_json_field(r#""f":"never closed, though long enough"#, "f"), None);
    assert_eq!(extract_json_field("nothing", "f"), None);
    assert_eq!(
        extract_json_field(r#""f":"surrogates \ud83d vanish entirely""#, "f"),
        Some("surrogates  vanish entirely".to_string())
    );
}

fn json(s: &str) -> Json {
    parse_json(s).unwrap()
}

#[test]
fn a_recipe_is_read_in_full() {
    let card = extract_recipe_object(&json(
        r#"{"@type":["Thing2","recipe"],"name":"x"}"#,
    ));
    assert!(card.is_none());
    let card = extract_recipe_object(&json(
        r#"{"@type":["Recipe"],"name":" Bread ","recipeIngredient":[" flour ","",3,"water"],
            "recipeInstructions":[" mix ",{"text":"rest"},{"itemListElement":[{"text":"bake"},{"text":" cool "}]},{"x":1}],
            "prepTime":"PT15M","totalTime":"PT1H30M","recipeYield":4,
            "image":[{"url":"https://i.org/a.png"}]}"#,
    ))
    .unwrap();
    assert_eq!(card.name, "Bread");
    assert_eq!(card.ingredients, vec!["flour", "water"]);
    assert_eq!(card.instructions, vec!["mix", "rest", "bake cool"]);
    assert_eq!(card.prep_time.as_deref(), Some("15 min"));
    assert_eq!(card.cook_time.as_deref(), Some("1 hr 30 min"));
    assert_eq!(card.servings.as_deref(), Some("4"));
    assert_eq!(card.image_url.as_deref(), Some("https://i.org/a.png"));
}

#[test]
fn recipes_come_in_several_shapes() {
    let text = |s: &str| extract_recipe_object(&json(s)).unwrap();
    let a = text(r#"{"@type":"RECIPE","recipeInstructions":"one\r\n\r\n two "}"#);
    assert_eq!(a.instructions, vec!["one", "two"]);
    assert_eq!(a.name, "");
    let b = text(r#"{"@type":"Recipe","name":"n","recipeYield":[" 6 "],"image":"u"}"#);
    assert_eq!(b.servings.as_deref(), Some("6"));
    assert_eq!(b.image_url.as_deref(), Some("u"));
    let c = text(r#"{"@type":"Recipe","name":"n","image":{"url":"v"},"recipeYield":-1}"#);
    assert_eq!(c.image_url.as_deref(), Some("v"));
    assert!(c.servings.is_none());
    assert!(extract_recipe_object(&json(r#"{"@type":"Recipe"}"#)).is_none());
    assert!(extract_recipe_object(&json(r#"{"name":"n"}"#)).is_none());
}

#[test]
fn recipes_are_found_in_lists_and_graphs() {
    let card = find_recipe(&json(r#"[{"@type":"Page"},{"@type":"Recipe","name":"a"}]"#)).unwrap();
    assert_eq!(card.name, "a");
    let card = find_recipe(&json(r#"{"@graph":[{"@type":"Recipe","name":"b"}],"@type":"Recipe","name":"c"}"#));
    assert_eq!(card.unwrap().name, "b");
    assert!(find_recipe(&json(r#"{"@graph":[],"@type":"Recipe","name":"c"}"#)).is_none());
}

#[test]
fn recipes_are_read_out_of_pages() {
    let html = r#"<html><head><script type="application/ld+json">not json</script>
        <script type="application/ld+json">{"@type":"Recipe","name":"Soup"}</script></head></html>"#;
    assert_eq!(extract_recipe_schema(html).unwrap().name, "Soup");
    assert!(extract_recipe_schema("<html></html>").is_none());
    assert!(first_recipe_of(&vec!["{".to_string()]).is_none());
}

#[test]
fn durations_are_put_in_words() {
    assert_eq!(parse_iso_duration("PT1H30M"), "1 hr 30 min");
    assert_eq!(parse_iso_duration("PT2H"), "2 hr");
    assert_eq!(parse_iso_duration("PT45M"), "45 min");
    assert_eq!(parse_iso_duration("PT0M"), "PT0M");
    assert_eq!(parse_iso_duration("P1D"), "P1D");
    assert_eq!(parse_iso_duration("PTxH5M"), "5 min");
    assert_eq!(parse_iso_duration("PT99999999999H1M"), "1 min");
}

#[test]
fn pages_can_look_like_recipes() {
    assert!(looks_like_recipe("How To Bake bread", ""));
    assert!(looks_like_recipe("x", "Preheat the oven, take BUTTER"));
    assert!(!looks_like_recipe("x", "butter"));
    assert!(looks_like_recipe("x", "ingredients"));
}

#[test]
fn the_prompt_shows_the_start_of_the_page() {
    let prompt = recipe_extract_prompt("Title", &"b".repeat(5000));
    assert!(prompt.starts_with("Extract the recipe from this web page.\n\nPage title: Title\n\nPage text:\nbbbb"));
    assert!(prompt.ends_with("\n}\n\nIf this page does not contain a recipe, return only the word: null"));
    assert_eq!(prompt.matches('b').count(), 4000 + recipe_extract_prompt("Title", "").matches('b').count());
}

#[test]
fn the_json_of_an_answer_is_cut_out() {
    assert_eq!(llm_recipe_json("Sure: {\"a\":{}} ok"), Some("{\"a\":{}}".to_string()));
    assert_eq!(llm_recipe_json(" NULL "), None);
    assert_eq!(llm_recipe_json("  "), None);
    assert_eq!(llm_recipe_json("} {"), None);
    assert_eq!(llm_recipe_json("{ open"), None);
}

#[test]
fn hosts_end_before_path_query_and_fragment() {
    assert_eq!(url_host("https://a.com:8080/x"), Some("a.com"));
    assert_eq!(url_host("https://example.com?q=test"), Some("example.com"));
    assert_eq!(url_host("http://a.com:80?q/x"), Some("a.com"));
    assert_eq!(url_host("https://a.com#top"), Some("a.com"));
    assert_eq!(url_host("a.com"), None);
}

#[test]
fn icons_are_asked_of_the_same_origin() {
    assert_eq!(
        favicon_target("http://a.com:81/x"),
        Some(("a.com".to_string(), "http://a.com:81/favicon.ico".to_string()))
    );
    assert_eq!(
        favicon_target("https://a.com?q"),
        Some(("a.com".to_string(), "https://a.com/favicon.ico".to_string()))
    );
    assert_eq!(favicon_target("ftp://a.com"), None);
    assert_eq!(
        favicon_answer(true, None, vec![1]),
        Some(("image/x-icon".to_string(), vec![1]))
    );
    assert_eq!(favicon_answer(true, Some("m".into()), vec![]), None);
    assert_eq!(favicon_answer(false, Some("m".into()), vec![1]), None);
}

const URL: &str = "https://a.com/x";

fn body_page() -> String {
    "<html><body><p>Some body text here and more words that go well past fifty characters</p></body></html>"
        .to_string()
}

#[test]
fn a_page_is_fetched_in_steps() {
    let answered = FetchEvent::Answered {
        final_url: URL.into(),
        content_type: Some("TEXT/HTML; charset=utf-8".into()),
    };
    let (stage, action) = fetch_step(URL, FetchStage::Asking, answered);
    assert!(matches!(action, FetchAction::Read));
    let (_, action) = fetch_step(URL, stage, FetchEvent::Text(body_page()));
    match action {
        FetchAction::Finish(FetchResult::Page(p)) => assert!(p.body.starts_with("Some body text")),
        other => panic!("{other:?}"),
    }
}

#[test]
fn other_content_is_skipped_and_errors_are_passed_on() {
    let answered = FetchEvent::Answered { final_url: URL.into(), content_type: None };
    let (_, action) = fetch_step(URL, FetchStage::Asking, answered);
    assert!(matches!(action, FetchAction::Finish(FetchResult::Skip)));
    let (_, action) = fetch_step(URL, FetchStage::Asking, FetchEvent::Failed("e".into()));
    assert!(matches!(action, FetchAction::Finish(FetchResult::Error(e)) if e == "e"));
    let (_, action) = fetch_step(URL, FetchStage::Reading(URL.into()), FetchEvent::Failed("r".into()));
    assert!(matches!(action, FetchAction::Finish(FetchResult::Error(e)) if e == "r"));
}

#[test]
fn login_walls_lead_to_the_archive() {
    let login = FetchStage::Reading("https://a.com/login".into());
    let (stage, action) = fetch_step(URL, login, FetchEvent::Text(body_page()));
    assert!(matches!(action, FetchAction::Query));
    let rows = vec![vec!["timestamp".to_string()], vec!["2020".to_string()]];
    let (stage, action) = fetch_step(URL, stage, FetchEvent::Rows(rows));
    match action {
        FetchAction::Load(at) => assert_eq!(at, "https://web.archive.org/web/2020/https://a.com/x"),
        other => panic!("{other:?}"),
    }
    let (_, action) = fetch_step(URL, stage, FetchEvent::Text(body_page()));
    assert!(matches!(action, FetchAction::Finish(FetchResult::Page(_))));
    let (_, action) = fetch_step(URL, FetchStage::Loading, FetchEvent::Text("<p></p>".into()));
    assert!(matches!(action, FetchAction::Finish(FetchResult::AuthWall)));
    let (_, action) = fetch_step(URL, FetchStage::Querying, FetchEvent::Rows(vec![]));
    assert!(matches!(action, FetchAction::Finish(FetchResult::AuthWall)));
    let (_, action) = fetch_step(URL, FetchStage::Querying, FetchEvent::Failed("x".into()));
    assert!(matches!(action, FetchAction::Finish(FetchResult::AuthWall)));
}

#[test]
fn surroundings_and_case_hide_no_paywall() {
    let mark = "Subscribe To Read";
    assert!(is_paywall(mark));
    assert!(is_paywall(&format!("<p>ΟΔΟΣ {mark} Σ</p>")));
    assert!(is_paywall(&mark.to_ascii_uppercase()));
    assert!(!is_paywall("subscribe"));
}

#[test]
fn surroundings_and_case_hide_no_login() {
    assert!(is_auth_wall("https://a.example/LOGIN?next=/", ""));
    assert!(is_auth_wall("https://a.example/Σ/login/Σ", ""));
    assert!(is_auth_wall("https://a.example/", "<p>ΟΔΟΣ</p><INPUT TYPE='PASSWORD'>"));
    assert!(!is_auth_wall("https://a.example/", "<p>password</p>"));
}
