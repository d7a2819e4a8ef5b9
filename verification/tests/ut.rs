use kbc_core::ut::{
    parse_origin, parse_request, resolve_asset_stem, resolve_origin_path, FileRequest,
    OriginFamily, OriginRequest, OriginVariant, UnitBuy, UnitBuyEntry, UtForm, UtOperation,
    UtRequest,
};

fn args(values: &[&str]) -> Vec<String> {
    values.iter().map(|v| v.to_string()).collect()
}

fn chars(values: &[&str]) -> Vec<Vec<char>> {
    values.iter().map(|v| v.chars().collect()).collect()
}

#[test]
fn parses_search_requests_and_resolves_shared_assets() {
    assert!(matches!(parse_request(&[]), UtRequest::Landing));
    assert!(matches!(
        parse_request(&["ネコ".to_owned(), "file".to_owned(), "s".to_owned()]),
        UtRequest::Search {
            operation: UtOperation::File(FileRequest { form: Some(UtForm::Third) }),
            ..
        }
    ));
    assert!(matches!(
        parse_request(&["ネコ".to_owned(), "motion".to_owned()]),
        UtRequest::InvalidMotion
    ));

    let unit_buy = UnitBuy {
        units: vec![UnitBuyEntry {
            id: "000".to_owned(),
            shared_form_ids: [Some("656".to_owned()), None],
        }],
    };
    let path = resolve_origin_path(
        Some(&unit_buy),
        "000",
        OriginRequest { family: OriginFamily::Icon, variant: OriginVariant::Form(UtForm::First) },
    );
    assert_eq!(path.as_deref(), Some("Unit/uni656_m00.png"));
}

#[test]
fn reads_forced_searches_and_conflicting_operations() {
    match parse_request(&args(&["-F", "ネコ", "ビルダー"])) {
        UtRequest::Search { query, force, operation: UtOperation::Detail } => {
            assert_eq!(query, "ネコ ビルダー");
            assert!(force);
        }
        other => panic!("unexpected {other:?}"),
    }
    assert!(matches!(parse_request(&args(&["a", "file", "origin"])), UtRequest::InvalidFile));
    assert!(matches!(parse_request(&args(&["a", "motion", "ORIGIN"])), UtRequest::InvalidMotion));
    assert!(matches!(parse_request(&args(&["origin"])), UtRequest::InvalidOrigin));
    assert!(matches!(parse_request(&args(&["a", "file", "x"])), UtRequest::InvalidFile));
    assert!(matches!(
        parse_request(&args(&["a", "origin", "gacha", "z"])),
        UtRequest::Search {
            operation: UtOperation::Origin(OriginRequest {
                family: OriginFamily::Gacha,
                variant: OriginVariant::GachaThird
            }),
            ..
        }
    ));
    match parse_request(&args(&["a", "motion", "png", "f", "a", "3"])) {
        UtRequest::Search { operation: UtOperation::Motion(request), .. } => {
            assert_eq!(request.form.as_deref(), Some("f"));
        }
        other => panic!("unexpected {other:?}"),
    }
}

#[test]
fn reads_origin_arguments() {
    assert_eq!(
        parse_origin(&chars(&["C"])),
        Some(OriginRequest { family: OriginFamily::Icon, variant: OriginVariant::Form(UtForm::Second) })
    );
    assert_eq!(
        parse_origin(&chars(&["wide", "u"])),
        Some(OriginRequest { family: OriginFamily::Wide, variant: OriginVariant::Form(UtForm::Fourth) })
    );
    assert_eq!(parse_origin(&chars(&["gacha", "x"])), None);
    assert_eq!(parse_origin(&chars(&["wide", "f", "c"])), None);
    assert_eq!(parse_origin(&chars(&["other"])), None);
}

#[test]
fn resolves_asset_paths() {
    let unit_buy = UnitBuy {
        units: vec![
            UnitBuyEntry { id: "000".to_owned(), shared_form_ids: [None, None] },
            UnitBuyEntry { id: "001".to_owned(), shared_form_ids: [None, Some("700".to_owned())] },
        ],
    };
    let stem = resolve_asset_stem(&unit_buy, "001", UtForm::Second).unwrap();
    assert_eq!(stem.asset_id, "700");
    assert_eq!(stem.suffix, "m");
    assert!(stem.shared);
    assert!(resolve_asset_stem(&unit_buy, "1", UtForm::First).is_none());
    assert!(resolve_asset_stem(&unit_buy, "002", UtForm::First).is_none());
    let request = |family, form| OriginRequest { family, variant: OriginVariant::Form(form) };
    assert_eq!(
        resolve_origin_path(Some(&unit_buy), "001", request(OriginFamily::Wide, UtForm::Second)).as_deref(),
        Some("Unit/udi700_m01.png")
    );
    assert_eq!(
        resolve_origin_path(Some(&unit_buy), "000", request(OriginFamily::Icon, UtForm::Third)).as_deref(),
        Some("Unit/uni000_s00.png")
    );
    assert_eq!(
        resolve_origin_path(Some(&unit_buy), "000", request(OriginFamily::Sprite, UtForm::First)).as_deref(),
        Some("Number/000_f.png")
    );
    assert_eq!(
        resolve_origin_path(
            None,
            "12",
            OriginRequest { family: OriginFamily::Gacha, variant: OriginVariant::GachaMiddle }
        )
        .as_deref(),
        Some("Image/gatyachara_12_m.png")
    );
    assert_eq!(resolve_origin_path(None, "000", request(OriginFamily::Icon, UtForm::First)), None);
    assert_eq!(UtForm::parse(&"S".chars().collect::<Vec<_>>()), Some(UtForm::Third));
    assert_eq!(UtForm::Fourth.label(), "第四形態");
}
