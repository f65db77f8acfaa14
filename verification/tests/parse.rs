use art_organize::model::Condition::{DateAdded, Media, Price, Source, Tag, TagWithCategory};
use art_organize::model::Search::{And, Negate, Or, Test};
use art_organize::model::{Date, DateOp, MediaType, PriceOp, PriceType, Search, SourceType};
use art_organize::parse::{
    parse_added, parse_and, parse_condition, parse_media, parse_negate, parse_or, parse_paren,
    parse_price, parse_search, parse_source, parse_tag, parse_tag_with_category, parse_test,
};

#[test]
fn test_tag() {
    assert_eq!(parse_tag("input"), Ok(("", Tag("input".to_owned()))));
    assert!(parse_tag("").is_err())
}
#[test]
fn test_tag_with_category() {
    assert_eq!(
        parse_tag_with_category(":input"),
        Ok(("", TagWithCategory(None, "input".to_owned())))
    );
    assert_eq!(
        parse_tag_with_category("category:input"),
        Ok((
            "",
            TagWithCategory(Some("category".to_owned()), "input".to_owned())
        ))
    );
    assert!(parse_tag_with_category("input").is_err())
}

#[test]
fn test_price() {
    assert_eq!(
        parse_price("base>=20"),
        Ok(("", Price(PriceType::Base, PriceOp::GreaterEqual, 20)))
    );
    assert_eq!(
        parse_price("base<=20"),
        Ok(("", Price(PriceType::Base, PriceOp::LesserEqual, 20)))
    );
    assert_eq!(
        parse_price("tip<=20"),
        Ok(("", Price(PriceType::Tip, PriceOp::LesserEqual, 20)))
    );
    assert_eq!(
        parse_price("total<=20"),
        Ok(("", Price(PriceType::Total, PriceOp::LesserEqual, 20)))
    );
    assert!(parse_price("awa>=20").is_err());
    assert!(parse_price("total20").is_err());
    assert!(parse_price("total<=").is_err());
}

#[test]
fn test_added() {
    assert_eq!(
        parse_added("after:10/25/2011"),
        Ok((
            "",
            DateAdded(DateOp::After, Date::from_ymd(2011, 10, 25))
        ))
    );
    assert_eq!(
        parse_added("before:10/25/2011"),
        Ok((
            "",
            DateAdded(DateOp::Before, Date::from_ymd(2011, 10, 25))
        ))
    );

    assert!(parse_added("wafter:10/25/2011").is_err());
    assert!(parse_added("after:100/24/2011").is_err());
}

#[test]
fn test_media() {
    assert_eq!(
        parse_media("media:image"),
        Ok(("", Media(MediaType::Image)))
    );
    assert_eq!(parse_media("media:text"), Ok(("", Media(MediaType::Text))));

    assert!(parse_media("media:logs").is_err());
    assert!(parse_media("wmedia:text").is_err());
}
#[test]
fn test_source() {
    assert_eq!(
        parse_source("source:fan"),
        Ok(("", Source(SourceType::FanCreation)))
    );
    assert_eq!(
        parse_source("source:official"),
        Ok(("", Source(SourceType::Official)))
    );
    assert_eq!(
        parse_source("source:commission"),
        Ok(("", Source(SourceType::Commission)))
    );

    assert!(parse_source("source:logs").is_err());
    assert!(parse_source("wsource:commission").is_err());
}

#[test]
fn test_condition() {
    assert_eq!(
        parse_condition("base>=20"),
        Ok(("", Price(PriceType::Base, PriceOp::GreaterEqual, 20)))
    );
    assert_eq!(
        parse_condition("after:10/25/2011"),
        Ok((
            "",
            DateAdded(DateOp::After, Date::from_ymd(2011, 10, 25))
        ))
    );
    assert_eq!(
        parse_condition("media:image"),
        Ok(("", Media(MediaType::Image)))
    );
    assert_eq!(
        parse_condition("source:fan"),
        Ok(("", Source(SourceType::FanCreation)))
    );
    assert_eq!(parse_condition("input"), Ok(("", Tag("input".to_owned()))));
    assert_eq!(
        parse_condition(":input"),
        Ok(("", TagWithCategory(None, "input".to_owned())))
    );
    assert_eq!(
        parse_condition("category:input"),
        Ok((
            "",
            TagWithCategory(Some("category".to_owned()), "input".to_owned())
        ))
    );

    assert!(parse_condition("(tag)").is_err());
    assert!(parse_condition("!tag").is_err());
}

#[test]
fn test_parse_test() {
    assert_eq!(
        parse_test("base>=20"),
        Ok(("", Test(Price(PriceType::Base, PriceOp::GreaterEqual, 20))))
    );
    assert_eq!(
        parse_search("after:10/25/2011"),
        Ok((
            "",
            Test(DateAdded(DateOp::After, Date::from_ymd(2011, 10, 25)))
        ))
    );
    assert_eq!(
        parse_test("media:image"),
        Ok(("", Test(Media(MediaType::Image))))
    );
    assert_eq!(
        parse_test("source:fan"),
        Ok(("", Test(Source(SourceType::FanCreation))))
    );
    assert_eq!(parse_test("input"), Ok(("", Test(Tag("input".to_owned())))));
    assert_eq!(
        parse_test(":input"),
        Ok(("", Test(TagWithCategory(None, "input".to_owned()))))
    );
    assert_eq!(
        parse_test("category:input"),
        Ok((
            "",
            Test(TagWithCategory(
                Some("category".to_owned()),
                "input".to_owned()
            ))
        ))
    );

    assert!(parse_condition("(tag)").is_err());
    assert!(parse_condition("!tag").is_err());
}

#[test]
fn test_negate() {
    assert_eq!(
        parse_negate("!base>=20"),
        Ok((
            "",
            Negate(Box::new(Test(Price(
                PriceType::Base,
                PriceOp::GreaterEqual,
                20
            ))))
        ))
    );
    assert_eq!(
        parse_negate("!!base>=20"),
        Ok((
            "",
            Negate(Box::new(Negate(Box::new(Test(Price(
                PriceType::Base,
                PriceOp::GreaterEqual,
                20
            ))))))
        ))
    );
}
#[test]
fn test_parens() {
    assert_eq!(
        parse_paren("(base>=20)"),
        Ok(("", Test(Price(PriceType::Base, PriceOp::GreaterEqual, 20))))
    );
}
#[test]
fn test_and() {
    assert_eq!(
        parse_and("base>=20 base<=30"),
        Ok((
            "",
            And(vec![
                Test(Price(PriceType::Base, PriceOp::GreaterEqual, 20)),
                Test(Price(PriceType::Base, PriceOp::LesserEqual, 30)),
            ])
        ))
    );
}
#[test]
fn test_or() {
    assert_eq!(
        parse_or("base<=20|base>=30"),
        Ok((
            "",
            Or(vec![
                Test(Price(PriceType::Base, PriceOp::LesserEqual, 20)),
                Test(Price(PriceType::Base, PriceOp::GreaterEqual, 30)),
            ])
        ))
    );
}

#[test]
fn test_search() {
    assert_eq!(
        parse_search("!base>=20"),
        Ok((
            "",
            Negate(Box::new(Test(Price(
                PriceType::Base,
                PriceOp::GreaterEqual,
                20
            ))))
        ))
    );

    assert_eq!(
        parse_search("(base>=20)"),
        Ok(("", Test(Price(PriceType::Base, PriceOp::GreaterEqual, 20))))
    );

    assert_eq!(
        parse_search("base>=20 base<=30"),
        Ok((
            "",
            And(vec![
                Test(Price(PriceType::Base, PriceOp::GreaterEqual, 20)),
                Test(Price(PriceType::Base, PriceOp::LesserEqual, 30)),
            ])
        ))
    );

    assert_eq!(
        parse_search("base<=20|base>=30"),
        Ok((
            "",
            Or(vec![
                Test(Price(PriceType::Base, PriceOp::LesserEqual, 20)),
                Test(Price(PriceType::Base, PriceOp::GreaterEqual, 30)),
            ])
        ))
    );
}

#[test]
fn test_and_or_precedence() {
    assert_eq!(
        parse_search("yumi_lovelace casual_outfit|teaching_outfit"),
        Ok((
            "",
            And(vec![
                Test(Tag("yumi_lovelace".to_owned())),
                Or(vec![
                    Test(Tag("casual_outfit".to_owned())),
                    Test(Tag("teaching_outfit".to_owned())),
                ])
            ])
        ))
    );
    assert_eq!(
        parse_search("casual_outfit|teaching_outfit yumi_lovelace"),
        Ok((
            "",
            And(vec![
                Or(vec![
                    Test(Tag("casual_outfit".to_owned())),
                    Test(Tag("teaching_outfit".to_owned())),
                ]),
                Test(Tag("yumi_lovelace".to_owned())),
            ])
        ))
    );

    assert_eq!(
        parse_search("(yumi_lovelace casual_outfit)|teaching_outfit"),
        Ok((
            "",
            Or(vec![
                And(vec![
                    Test(Tag("yumi_lovelace".to_owned())),
                    Test(Tag("casual_outfit".to_owned())),
                ]),
                Test(Tag("teaching_outfit".to_owned())),
            ])
        ))
    );
}

#[test]
fn test_negate_grouped() {
    assert_eq!(
        parse_search("yumi_lovelace !casual_outfit"),
        Ok((
            "",
            And(vec![
                Test(Tag("yumi_lovelace".to_owned())),
                Negate(Box::new(Test(Tag("casual_outfit".to_owned())),))
            ])
        ))
    );
    assert_eq!(
        parse_search("yumi_lovelace|!casual_outfit"),
        Ok((
            "",
            Or(vec![
                Test(Tag("yumi_lovelace".to_owned())),
                Negate(Box::new(Test(Tag("casual_outfit".to_owned())),))
            ])
        ))
    );
    assert_eq!(
        parse_search("!yumi_lovelace|!casual_outfit"),
        Ok((
            "",
            Or(vec![
                Negate(Box::new(Test(Tag("yumi_lovelace".to_owned())))),
                Negate(Box::new(Test(Tag("casual_outfit".to_owned())),))
            ])
        ))
    );
    assert_eq!(
        parse_search("!(yumi_lovelace|casual_outfit)"),
        Ok((
            "",
            Negate(Box::new(Or(vec![
                Search::Test(Tag("yumi_lovelace".to_owned())),
                Test(Tag("casual_outfit".to_owned()))
            ])))
        ))
    );
}

#[test]
fn test_complex() {
    assert_eq!(
        parse_search(
            "(yumi_lovelace !(casual_outfit|teaching_outfit))|(miu_yarai work_outfit)"
        ),
        Ok((
            "",
            Or(vec![
                And(vec![
                    Test(Tag("yumi_lovelace".to_owned())),
                    Negate(Box::new(Or(vec![
                        Test(Tag("casual_outfit".to_owned())),
                        Test(Tag("teaching_outfit".to_owned()))
                    ])))
                ]),
                And(vec![
                    Test(Tag("miu_yarai".to_owned())),
                    Test(Tag("work_outfit".to_owned()))
                ])
            ])
        ))
    );
}
