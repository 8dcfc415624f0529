use quest::{
    file_check, get_output_path, is_valid_count, is_valid_file, transform_from_source,
    validate_countries, Country, Name, SourceCountry,
};

fn country(cca2: &str, cca3: &str, ccn3: &str, common: &str, official: &str, capital: &str) -> Country {
    Country {
        cca2: String::from(cca2),
        cca3: String::from(cca3),
        ccn3: String::from(ccn3),
        name_common: String::from(common),
        name_official: String::from(official),
        capital: String::from(capital),
    }
}

#[test]
fn is_valid_file_for_does_not_exist() {
    let result = is_valid_file("does_not_exist.txt".to_string());
    assert!(result.is_err());
    assert_eq!(result.unwrap_err(), "file does not exist");
}

#[test]
fn is_valid_file_for_library_root() {
    let result = is_valid_file("src/lib.rs".to_string());
    assert!(result.is_ok());
    assert_eq!(result.unwrap(), ());
}

#[test]
fn file_check_follows_presence() {
    assert_eq!(file_check(true), Ok(()));
    assert_eq!(file_check(false), Err("file does not exist".to_string()));
}

#[test]
fn get_output_path_for_default_file() {
    let output = get_output_path("countries.json");
    assert_eq!(output, "countries.csv");
}

#[test]
fn get_output_path_for_file_with_no_extension() {
    let output = get_output_path("input");
    assert_eq!(output, "input.csv");
}

#[test]
fn get_output_path_for_file_with_relative_path() {
    let output = get_output_path("target/countries.json");
    assert_eq!(output, "target/countries.csv");
}

#[test]
fn get_output_path_for_file_with_absolute_path() {
    let output = get_output_path("/tmp/quest/countries.json");
    assert_eq!(output, "/tmp/quest/countries.csv");
}

#[test]
fn is_valid_count_for_1() {
    let result = is_valid_count("1".to_string());
    assert!(result.is_ok());
    assert_eq!(result.unwrap(), ());
}

#[test]
fn is_valid_count_for_100() {
    let result = is_valid_count("100".to_string());
    assert!(result.is_err());
    assert_eq!(result.unwrap_err(), "value should be less than 100");
}

#[test]
fn is_valid_count_for_foo() {
    let result = is_valid_count("foo".to_string());
    assert!(result.is_err());
    assert_eq!(result.unwrap_err(), "invalid digit found in string");
}

#[test]
fn is_valid_count_edges() {
    assert_eq!(is_valid_count("99".to_string()), Ok(()));
    assert_eq!(is_valid_count("+7".to_string()), Ok(()));
    assert_eq!(is_valid_count("0".to_string()), Ok(()));
    assert_eq!(
        is_valid_count("255".to_string()),
        Err("value should be less than 100".to_string())
    );
    assert_eq!(
        is_valid_count("256".to_string()),
        Err("number too large to fit in target type".to_string())
    );
    assert_eq!(
        is_valid_count("".to_string()),
        Err("cannot parse integer from empty string".to_string())
    );
    assert_eq!(
        is_valid_count(" 5".to_string()),
        Err("invalid digit found in string".to_string())
    );
}

#[test]
fn transform_from_source_for_2_countries() {
    let abw_name = Name {
        common: String::from("Aruba"),
        official: String::from("Aruba"),
    };
    let abw = SourceCountry {
        cca2: String::from("AW"),
        cca3: String::from("ABW"),
        ccn3: String::from("533"),
        name: abw_name,
        capital: vec![String::from("Oranjestad")],
    };
    let zaf_name = Name {
        common: String::from("South Africa"),
        official: String::from("Republic of South Africa"),
    };
    let zaf = SourceCountry {
        cca2: String::from("ZA"),
        cca3: String::from("ZAF"),
        ccn3: String::from("710"),
        name: zaf_name,
        capital: vec![
            String::from("Pretoria"),
            String::from("Bloemfontein"),
            String::from("Cape Town"),
        ],
    };

    let mut source_countries = Vec::new();
    source_countries.push(abw);
    source_countries.push(zaf);

    let countries = transform_from_source(source_countries);

    assert_eq!(countries.len(), 2);
    assert_eq!(countries[0].name_common, "Aruba");
    assert_eq!(countries[0].ccn3, "533");
    assert_eq!(countries[1].name_official, "Republic of South Africa");
    assert_eq!(countries[1].capital, "Pretoria");
}

#[test]
fn transform_from_source_without_capital() {
    let ata = SourceCountry {
        cca2: String::from("AQ"),
        cca3: String::from("ATA"),
        ccn3: String::from("010"),
        name: Name {
            common: String::from("Antarctica"),
            official: String::from("Antarctica"),
        },
        capital: Vec::new(),
    };
    let countries = transform_from_source(vec![ata]);
    assert_eq!(countries.len(), 1);
    assert_eq!(countries[0].capital, "");
    assert_eq!(countries[0].cca3, "ATA");
    assert_eq!(countries[0].name_official, "Antarctica");
}

#[test]
fn is_valid_capital_for_abw() {
    let abw = country("AW", "ABW", "533", "Aruba", "Aruba", "Oranjestad");
    assert!(abw.is_valid_capital());
}

#[test]
fn is_valid_capital_for_ata() {
    let ata = country("AQ", "ATA", "010", "Antarctica", "Antarctica", "");
    assert!(!ata.is_valid_capital());
}

#[test]
fn is_valid_capital_for_gib() {
    let gib = country("GI", "GIB", "292", "Gibraltar", "Gibraltar", "Gibraltar");
    assert!(!gib.is_valid_capital());
}

#[test]
fn is_valid_capital_for_gnb() {
    let gnb = country(
        "GW",
        "GNB",
        "624",
        "Guinea-Bissau",
        "Republic of Guinea-Bissau",
        "Bissau",
    );
    assert!(!gnb.is_valid_capital());
}

#[test]
fn is_valid_capital_for_gtm() {
    let gtm = country(
        "GT",
        "GTM",
        "320",
        "Guatemala",
        "Republic of Guatemala",
        "Guatemala City",
    );
    assert!(!gtm.is_valid_capital());
}

#[test]
fn validate_countries_for_3_countries() {
    let abw = country("AW", "ABW", "533", "Aruba", "Aruba", "Oranjestad");
    let ata = country("AQ", "ATA", "010", "Antarctica", "Antarctica", "");
    let zwe = country(
        "ZW",
        "ZWE",
        "716",
        "Zimbabwe",
        "Republic of Zimbabwe",
        "Harare",
    );

    let mut all_countries = Vec::new();
    all_countries.push(abw);
    all_countries.push(ata);
    all_countries.push(zwe);

    let countries = validate_countries(all_countries);

    assert_eq!(countries.len(), 2);
    assert_eq!(countries[0].capital, "Oranjestad");
    assert_eq!(countries[1].capital, "Harare");
}

#[test]
fn store_drops_empty_capital_keeps_order() {
    let raw = vec![
        country("", "", "1", "Aruba", "", "Oranjestad"),
        country("", "", "2", "Antarctica", "", ""),
        country("", "", "3", "Zimbabwe", "", "Harare"),
    ];
    let store = validate_countries(raw);
    assert_eq!(store.len(), 2);
    assert_eq!(store[0].name_common, "Aruba");
    assert_eq!(store[0].ccn3, "1");
    assert_eq!(store[1].name_common, "Zimbabwe");
    assert_eq!(store[1].ccn3, "3");
}

#[test]
fn store_drops_capital_equal_to_name() {
    let raw = vec![country("", "", "292", "Gibraltar", "", "Gibraltar")];
    assert!(validate_countries(raw).is_empty());
}

#[test]
fn store_members_all_have_fitting_capitals() {
    let raw = vec![
        country("", "", "1", "Monaco", "", "Monaco"),
        country("", "", "2", "Djibouti", "", "Djibouti City"),
        country("", "", "3", "Kuwait City", "", "Kuwait"),
        country("", "", "4", "France", "", "Paris"),
        country("", "", "5", "Luxembourg", "", ""),
        country("", "", "6", "Peru", "", "Lima"),
    ];
    let store = validate_countries(raw);
    assert_eq!(store.len(), 2);
    for c in &store {
        assert!(!c.capital.is_empty());
        assert!(!c.capital.contains(&c.name_common));
        assert!(!c.name_common.contains(&c.capital));
    }
    assert_eq!(store[0].name_common, "France");
    assert_eq!(store[1].name_common, "Peru");
}

#[test]
fn store_built_twice_is_the_same() {
    let make = || {
        vec![
            country("", "", "1", "Aruba", "", "Oranjestad"),
            country("", "", "2", "Antarctica", "", ""),
            country("", "", "3", "Zimbabwe", "", "Harare"),
            country("", "", "4", "Chile", "", "Santiago"),
        ]
    };
    let first = validate_countries(make());
    let second = validate_countries(make());
    assert_eq!(first.len(), second.len());
    for (a, b) in first.iter().zip(second.iter()) {
        assert_eq!(a.ccn3, b.ccn3);
        assert_eq!(a.name_common, b.name_common);
        assert_eq!(a.capital, b.capital);
    }
}

#[test]
fn store_of_nothing_is_empty() {
    assert!(validate_countries(Vec::new()).is_empty());
}

#[test]
fn countries_equal_by_key_alone() {
    let a = country("AW", "ABW", "533", "Aruba", "Aruba", "Oranjestad");
    let b = country("XX", "XXX", "533", "Other", "Other", "Elsewhere");
    let c = country("AW", "ABW", "534", "Aruba", "Aruba", "Oranjestad");
    assert!(a == b);
    assert!(a != c);
}
