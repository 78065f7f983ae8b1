use convert_case::{Case, Casing};

#[test]
fn lossless_against_lossless() {
    let examples = vec![
        (Case::Lower, "my variable 22 name"),
        (Case::Upper, "MY VARIABLE 22 NAME"),
        (Case::Title, "My Variable 22 Name"),
        (Case::Camel, "myVariable22Name"),
        (Case::Pascal, "MyVariable22Name"),
        (Case::Snake, "my_variable_22_name"),
        (Case::ScreamingSnake, "MY_VARIABLE_22_NAME"),
        (Case::Kebab, "my-variable-22-name"),
        (Case::Cobol, "MY-VARIABLE-22-NAME"),
        (Case::Toggle, "mY vARIABLE 22 nAME"),
        (Case::Train, "My-Variable-22-Name"),
        (Case::Alternating, "mY vArIaBlE 22 nAmE"),
    ];

    for (case_a, str_a) in examples.iter() {
        for (case_b, str_b) in examples.iter() {
            assert_eq!(*str_a, str_b.from_case(*case_b).to_case(*case_a))
        }
    }
}

#[test]
fn obvious_default_parsing() {
    let examples = vec![
        "SuperMario64Game",
        "super-mario64-game",
        "superMario64 game",
        "Super Mario 64_game",
        "SUPERMario 64-game",
        "super_mario-64 game",
    ];

    for example in examples {
        assert_eq!("super_mario_64_game", example.to_case(Case::Snake));
    }
}

#[test]
fn camel_case_acroynms() {
    assert_eq!(
        "xml_http_request",
        "XMLHttpRequest".from_case(Case::Camel).to_case(Case::Snake)
    );
    assert_eq!(
        "xml_http_request",
        "XMLHttpRequest"
            .from_case(Case::UpperCamel)
            .to_case(Case::Snake)
    );
    assert_eq!(
        "xml_http_request",
        "XMLHttpRequest"
            .from_case(Case::Pascal)
            .to_case(Case::Snake)
    );
}

#[test]
fn leading_tailing_delimeters() {
    assert_eq!(
        "leading_underscore",
        "_leading_underscore"
            .from_case(Case::Snake)
            .to_case(Case::Snake)
    );
    assert_eq!(
        "tailing_underscore",
        "tailing_underscore_"
            .from_case(Case::Snake)
            .to_case(Case::Snake)
    );
    assert_eq!(
        "leading_hyphen",
        "-leading-hyphen"
            .from_case(Case::Kebab)
            .to_case(Case::Snake)
    );
    assert_eq!(
        "tailing_hyphen",
        "tailing-hyphen-"
            .from_case(Case::Kebab)
            .to_case(Case::Snake)
    );
}

#[test]
fn double_delimeters() {
    assert_eq!(
        "many_underscores",
        "many___underscores"
            .from_case(Case::Snake)
            .to_case(Case::Snake)
    );
    assert_eq!(
        "many-underscores",
        "many---underscores"
            .from_case(Case::Kebab)
            .to_case(Case::Kebab)
    );
}

#[test]
fn early_word_boundaries() {
    assert_eq!(
        "a_bagel",
        "aBagel".from_case(Case::Camel).to_case(Case::Snake)
    );
}

#[test]
fn late_word_boundaries() {
    assert_eq!(
        "team_a",
        "teamA".from_case(Case::Camel).to_case(Case::Snake)
    );
}

#[test]
fn empty_string() {
    for (case_a, case_b) in Case::all_cases().into_iter().zip(Case::all_cases()) {
        assert_eq!("", "".from_case(case_a).to_case(case_b));
    }
}

#[test]
fn owned_string() {
    assert_eq!(
        "test_variable",
        String::from("TestVariable").to_case(Case::Snake)
    )
}

#[test]
fn default_all_boundaries() {
    assert_eq!(
        "abc_abc_abc_abc_abc_abc",
        "ABC-abc_abcAbc ABCAbc".to_case(Case::Snake)
    );
}

#[test]
fn empty_text_stays_empty_for_every_pair() {
    for a in Case::all_cases() {
        assert_eq!("", "".to_case(a));
        assert_eq!("", String::new().to_case(a));
        for b in Case::all_cases() {
            assert_eq!("", "".from_case(a).to_case(b));
        }
    }
}

#[test]
fn delimiters_alone_give_no_word() {
    assert_eq!("", " _-- _ ".to_case(Case::Pascal));
    assert_eq!("", "___".from_case(Case::Snake).to_case(Case::Title));
    assert_eq!("", " \t\n ".from_case(Case::Lower).to_case(Case::Kebab));
}

#[test]
fn converting_into_the_declared_convention_changes_nothing() {
    let examples = vec![
        (Case::Lower, "my variable 22 name"),
        (Case::Upper, "MY VARIABLE 22 NAME"),
        (Case::Title, "My Variable 22 Name"),
        (Case::Toggle, "mY vARIABLE 22 nAME"),
        (Case::Camel, "myVariable22Name"),
        (Case::Pascal, "MyVariable22Name"),
        (Case::UpperCamel, "MyVariable22Name"),
        (Case::Snake, "my_variable_22_name"),
        (Case::ScreamingSnake, "MY_VARIABLE_22_NAME"),
        (Case::Kebab, "my-variable-22-name"),
        (Case::Cobol, "MY-VARIABLE-22-NAME"),
        (Case::Train, "My-Variable-22-Name"),
        (Case::Alternating, "mY vArIaBlE 22 nAmE"),
    ];
    for (case, text) in examples {
        assert_eq!(text, text.from_case(case).to_case(case));
    }
}

#[test]
fn kebab_delimiter_hygiene() {
    assert_eq!(
        "leading-hyphen",
        "-leading-hyphen".from_case(Case::Kebab).to_case(Case::Kebab)
    );
    assert_eq!(
        "tailing-hyphen",
        "tailing-hyphen-".from_case(Case::Kebab).to_case(Case::Kebab)
    );
    assert_eq!(
        "many-hyphens",
        "many---hyphens".from_case(Case::Kebab).to_case(Case::Kebab)
    );
}

#[test]
fn digit_boundaries() {
    assert_eq!("e_5150", "E5150".to_case(Case::Snake));
    assert_eq!("10,000_days", "10,000Days".to_case(Case::Snake));
    assert_eq!("HELLO, WORLD!", "Hello, world!".to_case(Case::Upper));
}

#[test]
fn alternating_skips_digits_and_keeps_spaces() {
    assert_eq!(
        "mY vArIaBlE 22 nAmE",
        "my variable 22 name".to_case(Case::Alternating)
    );
    assert_eq!("a 1 B c!D", "A1b C!d".to_case(Case::Alternating));
}

#[test]
fn alternating_counts_across_words() {
    assert_eq!("aBc DeF g", "abc def g".from_case(Case::Lower).to_case(Case::Alternating));
    assert_eq!("a B c", "A B C".from_case(Case::Upper).to_case(Case::Alternating));
}

#[test]
fn every_pattern_on_the_same_words() {
    let text = "hello_big_world";
    let expected = vec![
        (Case::Upper, "HELLO BIG WORLD"),
        (Case::Lower, "hello big world"),
        (Case::Title, "Hello Big World"),
        (Case::Toggle, "hELLO bIG wORLD"),
        (Case::Camel, "helloBigWorld"),
        (Case::Pascal, "HelloBigWorld"),
        (Case::UpperCamel, "HelloBigWorld"),
        (Case::Snake, "hello_big_world"),
        (Case::ScreamingSnake, "HELLO_BIG_WORLD"),
        (Case::Kebab, "hello-big-world"),
        (Case::Cobol, "HELLO-BIG-WORLD"),
        (Case::Train, "Hello-Big-World"),
        (Case::Alternating, "hElLo BiG wOrLd"),
    ];
    for (case, want) in expected {
        assert_eq!(want, text.to_case(case));
    }
}

#[test]
fn title_from_mixed_text() {
    assert_eq!("Ronnie James Dio", "ronnie james dio".to_case(Case::Title));
    assert_eq!("ronnieJamesDio", "Ronnie_James_dio".to_case(Case::Camel));
    assert_eq!("Ronnie-James-Dio", "RONNIE_JAMES_DIO".to_case(Case::Train));
}

#[test]
fn declared_source_narrows_the_rules() {
    assert_eq!(
        "2020 04 16 My Cat Cali",
        "2020-04-16_my_cat_cali".to_case(Case::Title)
    );
    assert_eq!(
        "2020-04-16 My Cat Cali",
        "2020-04-16_my_cat_cali".from_case(Case::Snake).to_case(Case::Title)
    );
    assert_eq!(
        "Ninety-nine Problems",
        "ninety-nine_problems".from_case(Case::Snake).to_case(Case::Title)
    );
}

#[test]
fn a_wrong_declaration_degrades_to_fewer_words() {
    assert_eq!(
        "My-kebab-var",
        "my-kebab-var".from_case(Case::Snake).to_case(Case::Title)
    );
    assert_eq!(
        "my_kebab_like_variable",
        "myKebab-like-variable".to_case(Case::Snake)
    );
    assert_eq!("myvar", "myVar".from_case(Case::Kebab).to_case(Case::Snake));
}

#[test]
fn acronyms_by_default() {
    assert_eq!("io_stream", "IOStream".to_case(Case::Snake));
    assert_eq!("my_json_parser", "myJSONParser".to_case(Case::Snake));
    assert_eq!("weird_var_name", "__weird--var _name-".to_case(Case::Snake));
}

#[test]
fn trailing_upper_case_run_is_one_word() {
    assert_eq!("foo_bar", "fooBAR".from_case(Case::Camel).to_case(Case::Snake));
    assert_eq!("abc", "ABC".to_case(Case::Snake));
    assert_eq!("ab", "AB".from_case(Case::Pascal).to_case(Case::Kebab));
}

#[test]
fn letters_outside_ascii() {
    assert_eq!("granat-äpfel", "GranatÄpfel".to_case(Case::Kebab));
    assert_eq!("ὀδυσσεύς", "ὈΔΥΣΣΕΎΣ".to_case(Case::Lower));
    assert_eq!("ÉCOLE_NORMALE", "écoleNormale".to_case(Case::ScreamingSnake));
    assert_eq!("Straße", "straße".to_case(Case::Title));
    assert_eq!("SSa", "ßa".to_case(Case::Pascal));
}

#[test]
fn white_space_under_a_declared_space_convention() {
    assert_eq!(
        "a_b_c_d",
        "a\tb\nc  d".from_case(Case::Lower).to_case(Case::Snake)
    );
    assert_eq!("a\tb_c", "a\tb c".to_case(Case::Snake));
    assert_eq!("a_b", "A\r\nB".from_case(Case::Title).to_case(Case::Snake));
}

#[test]
fn a_space_is_no_boundary_under_camel_rules() {
    assert_eq!("a 1", "a 1".from_case(Case::Camel).to_case(Case::Snake));
    assert_eq!("a_b c", "aB c".from_case(Case::Camel).to_case(Case::Snake));
}

#[test]
fn redeclaring_the_source_replaces_it() {
    let first = "a_b-c".from_case(Case::Snake);
    assert_eq!("A B-c", first.to_case(Case::Title));
    let second = first.from_case(Case::Kebab);
    assert_eq!("A_b C", second.to_case(Case::Title));
    assert_eq!("A B-c", first.to_case(Case::Title));
    let owned = String::from("a_b-c").from_case(Case::Kebab);
    assert_eq!("A_b C", owned.to_case(Case::Title));
}

#[test]
fn all_cases_lists_each_convention_once() {
    let all = Case::all_cases();
    assert_eq!(13, all.len());
    for (i, a) in all.iter().enumerate() {
        for (j, b) in all.iter().enumerate() {
            assert_eq!(i == j, a == b);
        }
    }
    assert!(all.contains(&Case::Pascal));
    assert!(all.contains(&Case::UpperCamel));
}
