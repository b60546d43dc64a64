use article_index::article::ArticleCard;
use article_index::article::ArticleList;
use article_index::article::build_index;

fn test_card() -> ArticleCard {
    ArticleCard {
        name: String::from("test_article"),
        title: String::from("测试文章"),
        time: String::from("2020-10-04"),
        category: String::from("test"),
        tags: vec![
            String::from("test"),
            String::from("rust"),
            String::from("json"),
        ],
        part: String::from("这是用来测试的文章。"),
    }
}

fn test_cards() -> Vec<ArticleCard> {
    vec![test_card()]
}

#[test]
fn assert_cards() {
    let cards = test_cards();

    let tag = "rust";
    let category = "test";

    assert_eq!(cards[0].has_tag(tag), true);
    assert_eq!(cards[0].is_in_category(category), true);

    let tag = "kotlin";
    let category = "lalilulelo";

    assert_eq!(cards[0].has_tag(tag), false);
    assert_eq!(cards[0].is_in_category(category), false)
}

#[test]
fn vec_category_assert() {
    let cards = build_index(test_cards());

    let category = "test";
    let result = cards.in_category(category);
    println!("{:?}", result.0.0.len());
    assert_eq!(result.1, true);

    let category = "lalilulelo";
    let result = cards.in_category(category);
    println!("{:?}", result.0.0.len());
    assert_eq!(result.1, false);
}

#[test]
fn vec_tag_assert() {
    let cards = build_index(test_cards());

    let tag = "rust";
    let result = cards.has_tag(tag);
    println!("{:?}", result.0.0.len());
    assert_eq!(result.1, true);

    let tag = "kotlin";
    let result = cards.has_tag(tag);
    println!("{:?}", result.0.0.len());
    assert_eq!(result.1, false);
}

#[test]
fn vec_both_assert() {
    let cards = build_index(test_cards());

    let category = "test";
    let tag = "rust";
    let result = cards.search_all(category, tag);
    println!("{:?}", result.0.0.len());
    assert_eq!(result.1, true);

    let category = "lalilulelo";
    let tag = "kotlin";
    let result = cards.search_all(category, tag);
    println!("{:?}", result.0.0.len());
    assert_eq!(result.1, false);
}

fn two_record_index() -> ArticleList {
    let first = ArticleCard {
        name: String::from("first"),
        title: String::from("first"),
        time: String::from("2020-10-04"),
        category: String::from("test"),
        tags: vec![String::from("rust"), String::from("json")],
        part: String::from("body"),
    };
    let second = ArticleCard {
        name: String::from("second"),
        title: String::from("second"),
        time: String::from("2020-10-05"),
        category: String::from("other"),
        tags: vec![],
        part: String::from("body"),
    };
    build_index(vec![first, second])
}

#[test]
fn category_filter_keeps_matching_record() {
    let index = two_record_index();
    let (matches, found) = index.in_category("test");
    assert_eq!(found, true);
    assert_eq!(matches.0.len(), 1);
    assert_eq!(matches.0[0].name, "first");
}

#[test]
fn tag_filter_keeps_matching_record() {
    let index = two_record_index();
    let (matches, found) = index.has_tag("rust");
    assert_eq!(found, true);
    assert_eq!(matches.0.len(), 1);
    assert_eq!(matches.0[0].name, "first");
}

#[test]
fn combined_filter_short_circuits_on_empty_category() {
    // "other" holds one record, but it has no "rust" tag; asking for the
    // category that lacks the tagged record must come back empty via the
    // category stage, not the tag stage.
    let index = two_record_index();
    let (matches, found) = index.search_all("other", "rust");
    assert_eq!(found, false);
    assert_eq!(matches.0.len(), 0);

    let (matches, found) = index.search_all("lalilulelo", "rust");
    assert_eq!(found, false);
    assert_eq!(matches.0.len(), 0);
}

#[test]
fn combined_filter_applies_both_stages() {
    let index = two_record_index();
    let (matches, found) = index.search_all("test", "rust");
    assert_eq!(found, true);
    assert_eq!(matches.0.len(), 1);
    assert_eq!(matches.0[0].name, "first");

    let (matches, found) = index.search_all("test", "kotlin");
    assert_eq!(found, false);
    assert_eq!(matches.0.len(), 0);
}

#[test]
fn select_dispatches_on_criteria() {
    let index = two_record_index();

    let none = index.select(None, None);
    assert_eq!(none.0.len(), 0);

    let by_category = index.select(None, Some("other"));
    assert_eq!(by_category.0.len(), 1);
    assert_eq!(by_category.0[0].name, "second");

    let by_tag = index.select(Some("json"), None);
    assert_eq!(by_tag.0.len(), 1);
    assert_eq!(by_tag.0[0].name, "first");

    let by_both = index.select(Some("rust"), Some("test"));
    assert_eq!(by_both.0.len(), 1);
    assert_eq!(by_both.0[0].name, "first");

    let short_circuited = index.select(Some("rust"), Some("other"));
    assert_eq!(short_circuited.0.len(), 0);
}

#[test]
fn filters_preserve_order() {
    let mut cards = Vec::new();
    for name in ["a", "b", "c"] {
        cards.push(ArticleCard {
            name: String::from(name),
            title: String::from(name),
            time: String::from("2020-01-01"),
            category: String::from("test"),
            tags: vec![String::from("rust")],
            part: String::from("body"),
        });
    }
    let index = build_index(cards);
    let (matches, found) = index.in_category("test");
    assert_eq!(found, true);
    let names: Vec<&str> = matches.0.iter().map(|c| c.name.as_str()).collect();
    assert_eq!(names, vec!["a", "b", "c"]);
}

#[test]
fn to_sql_renders_the_insert_statement() {
    let card = test_card();
    let sql = card.to_sql();
    assert_eq!(
        sql,
        "insert into article_card values (\"测试文章\",\"2020-10-04\",\"test\",\"test,rust,json,\",\"这是用来测试的文章。\");"
    );
}

#[test]
fn to_sql_with_no_tags_renders_empty_tag_list() {
    let mut card = test_card();
    card.tags = vec![];
    let sql = card.to_sql();
    assert_eq!(
        sql,
        "insert into article_card values (\"测试文章\",\"2020-10-04\",\"test\",\"\",\"这是用来测试的文章。\");"
    );
}

#[test]
fn index_route_greets() {
    assert_eq!(article_index::routes::index(), "Hello, world!");
}
