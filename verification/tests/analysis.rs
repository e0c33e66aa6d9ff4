use gomamayo::reading::{LINDERA_DETAIL_PRONOUNCIATION_COLUMN, LINDERA_DETAIL_READING_COLUMN};
use gomamayo::{
    analyze, check_token_sizes, token_pronounciation, token_reading, tokens_to_pronounciations,
    GomamayoError, GomamayoKind, GomamayoResult, Token, UnknownPronounciationError,
};
use lindera_core::error::LinderaErrorKind;

fn row(reading: &str, pronounciation: &str) -> Vec<String> {
    let mut details = vec!["*".to_string(); 17];
    details[LINDERA_DETAIL_READING_COLUMN] = reading.to_string();
    details[LINDERA_DETAIL_PRONOUNCIATION_COLUMN] = pronounciation.to_string();
    details
}

fn token(text: &str, reading: &str, pronounciation: &str) -> Token {
    Token {
        text: text.to_string(),
        details: Some(row(reading, pronounciation)),
    }
}

#[test]
fn columns_are_where_the_dictionary_puts_them() {
    assert_eq!(LINDERA_DETAIL_READING_COLUMN, 6);
    assert_eq!(LINDERA_DETAIL_PRONOUNCIATION_COLUMN, 9);
}

#[test]
fn spoken_form_is_preferred() {
    let reading = token_pronounciation(&token("長期", "チョウキ", "チョーキ")).unwrap();
    assert_eq!(reading, "チョーキ");
}

#[test]
fn written_form_stands_in_for_a_missing_spoken_form() {
    let reading = token_pronounciation(&token("長期", "チョウキ", "*")).unwrap();
    assert_eq!(reading, "チョウキ");
}

#[test]
fn written_form_stands_in_for_a_short_row() {
    let details: Vec<String> = ["a", "b", "c", "d", "e", "f", "ゴマ"]
        .iter()
        .map(|s| s.to_string())
        .collect();
    let short = Token {
        text: "胡麻".to_string(),
        details: Some(details),
    };
    assert_eq!(token_pronounciation(&short).unwrap(), "ゴマ");
}

#[test]
fn placeholder_is_one_asterisk_only() {
    assert_eq!(token_pronounciation(&token("x", "**", "*")).unwrap(), "**");
    assert_eq!(token_pronounciation(&token("x", "ア", "")).unwrap(), "");
    assert_eq!(token_pronounciation(&token("x", "ア", "*ア")).unwrap(), "*ア");
}

#[test]
fn token_without_reading_is_reported_by_its_text() {
    let e = token_pronounciation(&token("𝕏", "*", "*")).unwrap_err();
    assert_eq!(e.text, "𝕏");
}

#[test]
fn token_without_details_is_reported() {
    let bare = Token {
        text: "謎".to_string(),
        details: None,
    };
    let e = token_pronounciation(&bare).unwrap_err();
    assert_eq!(e.text, "謎");
}

#[test]
fn token_with_too_short_a_row_is_reported() {
    let unknown = Token {
        text: "ＵＮＫ".to_string(),
        details: Some(vec!["UNK".to_string()]),
    };
    let e = token_pronounciation(&unknown).unwrap_err();
    assert_eq!(e.text, "ＵＮＫ");
    let empty = Token {
        text: "空".to_string(),
        details: Some(Vec::new()),
    };
    assert_eq!(token_pronounciation(&empty).unwrap_err().text, "空");
}

#[test]
fn readings_come_in_the_order_of_the_tokens() {
    let tokens = vec![
        token("胡麻", "ゴマ", "ゴマ"),
        token("マヨ", "マヨ", "*"),
        token("長期", "チョウキ", "チョーキ"),
    ];
    assert_eq!(
        tokens_to_pronounciations(&tokens).unwrap(),
        ["ゴマ", "マヨ", "チョーキ"]
    );
}

#[test]
fn no_token_gives_no_reading() {
    assert_eq!(
        tokens_to_pronounciations(&Vec::new()).unwrap(),
        Vec::<String>::new()
    );
}

#[test]
fn first_token_without_reading_is_reported() {
    let tokens = vec![
        token("胡麻", "ゴマ", "ゴマ"),
        token("一", "*", "*"),
        token("二", "*", "*"),
    ];
    let e = tokens_to_pronounciations(&tokens).unwrap_err();
    assert_eq!(e.text, "一");
}

#[test]
fn analyze_finds_a_gomamayo() {
    let tokens = vec![token("ゴマ", "ゴマ", "ゴマ"), token("マヨ", "マヨ", "マヨ")];
    let gomamayo = analyze(&tokens).unwrap();
    assert_eq!(gomamayo.kind, Some(GomamayoKind { ary: 1, degree: 1 }));
    assert_eq!(gomamayo.pronounciations, ["ゴマ", "マヨ"]);
}

#[test]
fn analyze_goes_by_the_spoken_form() {
    let tokens = vec![
        token("博麗", "ハクレイ", "ハクレー"),
        token("霊夢", "レイム", "レーム"),
    ];
    let gomamayo = analyze(&tokens).unwrap();
    assert_eq!(gomamayo.kind, Some(GomamayoKind { ary: 1, degree: 2 }));
    assert_eq!(gomamayo.pronounciations, ["ハクレー", "レーム"]);
}

#[test]
fn analyze_finds_no_gomamayo() {
    let tokens = vec![
        token("診療", "シンリョウ", "シンリョー"),
        token("受付", "ウケツケ", "ウケツケ"),
    ];
    let gomamayo = analyze(&tokens).unwrap();
    assert_eq!(gomamayo.kind, None);
    assert_eq!(gomamayo.pronounciations, ["シンリョー", "ウケツケ"]);
}

#[test]
fn analyze_of_one_token_is_no_gomamayo() {
    let gomamayo = analyze(&vec![token("パパイヤ", "パパイヤ", "パパイヤ")]).unwrap();
    assert_eq!(gomamayo.kind, None);
    assert_eq!(gomamayo.pronounciations, ["パパイヤ"]);
}

#[test]
fn analyze_of_no_token_is_no_gomamayo() {
    let gomamayo = analyze(&Vec::new()).unwrap();
    assert_eq!(gomamayo.kind, None);
    assert!(gomamayo.pronounciations.is_empty());
}

#[test]
fn analyze_reports_the_token_without_reading() {
    let tokens = vec![
        token("ゴマ", "ゴマ", "ゴマ"),
        token("☃", "*", "*"),
        token("マヨ", "マヨ", "マヨ"),
    ];
    match analyze(&tokens) {
        Err(GomamayoError::UnknownPronounciationError(UnknownPronounciationError { text })) => {
            assert_eq!(text, "☃")
        }
        other => panic!("unexpected outcome: {:?}", other),
    }
}

#[test]
fn tokenizer_error_becomes_its_own_variant() {
    let source = std::io::Error::new(std::io::ErrorKind::InvalidData, "bad dictionary");
    let e = GomamayoError::from(LinderaErrorKind::Content.with_error(source));
    match e {
        GomamayoError::LinderaError(inner) => assert_eq!(inner.kind(), LinderaErrorKind::Content),
        other => panic!("unexpected variant: {:?}", other),
    }
}

#[test]
fn io_error_becomes_its_own_variant() {
    let source = std::io::Error::new(std::io::ErrorKind::UnexpectedEof, "no input");
    match GomamayoError::from(source) {
        GomamayoError::IoError(inner) => {
            assert_eq!(inner.kind(), std::io::ErrorKind::UnexpectedEof)
        }
        other => panic!("unexpected variant: {:?}", other),
    }
}

#[test]
fn question_mark_converts_the_errors() {
    fn failing() -> GomamayoResult<()> {
        Err(std::io::Error::new(std::io::ErrorKind::Other, "x"))?;
        Ok(())
    }
    assert!(matches!(failing(), Err(GomamayoError::IoError(_))));
}

#[test]
fn token_reading_borrows_the_chosen_column() {
    let spoken = token("長期", "チョウキ", "チョーキ");
    assert_eq!(token_reading(&spoken).map(String::as_str), Some("チョーキ"));
    let written = token("博麗", "ハクレー", "*");
    assert_eq!(token_reading(&written).map(String::as_str), Some("ハクレー"));
    let neither = token("謎", "*", "*");
    assert_eq!(token_reading(&neither), None);
}

#[test]
fn sizes_of_ordinary_tokens_fit() {
    assert!(check_token_sizes(&Vec::new()));
    assert!(check_token_sizes(&vec![token("ゴマ", "ゴマ", "ゴマ")]));
    assert!(check_token_sizes(&vec![
        token("ゴマ", "ゴマ", "ゴマ"),
        token("☃", "*", "*"),
        token("マヨ", "マヨ", "*"),
    ]));
}
