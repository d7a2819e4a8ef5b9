use kbc_core::stage::{assemble_stage_data, stage_document_requests, StageTypeRange};

#[test]
fn stage_documents_cover_names_types_and_chapters() {
    let requests = stage_document_requests(&vec![StageTypeRange {
        from: 1000,
        to: 1999,
        stage_type: "S".to_owned(),
    }]);
    let keys: Vec<&str> = requests.iter().map(|r| r.key.as_str()).collect();
    assert_eq!(
        keys,
        vec![
            "map",
            "sale",
            "normal:N",
            "normal:S",
            "chapter:StageName0_ja.csv",
            "chapter:StageName1_ja.csv",
            "chapter:StageName2_ja.csv",
            "chapter:StageName0Z_ja.csv",
            "chapter:StageName1Z_ja.csv",
            "chapter:StageName2Z_ja.csv",
        ]
    );
    assert_eq!(
        requests[3].candidates,
        vec![
            "https://raw.githubusercontent.com/sinsuirakv0/KBC-rakv0-assets/main/jp/sitedata/res/StageName_RS_ja.csv".to_owned(),
            "https://raw.githubusercontent.com/sinsuirakv0/KBC-rakv0-assets/main/jp/sitedata/res/StageName_S_ja.csv".to_owned(),
        ]
    );
    assert_eq!(
        requests[4].candidates,
        vec!["https://raw.githubusercontent.com/Sugar2550/omoroirie/main/data/StageName0_ja.csv".to_owned()]
    );
}

#[test]
fn stage_data_reports_a_missing_document() {
    let error = assemble_stage_data(Vec::new(), &Vec::new()).err().unwrap();
    assert_eq!(error.reason, "missing downloaded document: map");
}
