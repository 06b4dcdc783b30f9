use hypergrib::database::{ParameterDatabase, ParameterInsertionError};
use hypergrib::numeric_id::{NumericId, NumericIdBuilder};
use hypergrib::parameter::{Abbrev, Parameter};
use hypergrib::tables::{
    classify_table_file, keep_row, parse_subcenter_code, row_passes_filter, LocalIndex,
    LocalIndexRow, PopulateError, TableFile, TableRow, TableSource,
};

#[test]
fn insert_and_retrieve() {
    let numeric_id = NumericIdBuilder::new(0, 0, 0).build();

    let param = Parameter {
        abbrev: Abbrev("FOO".to_string()),
        name: "Foo".to_string(),
        unit: "K".to_string(),
    };

    let mut param_db = ParameterDatabase::new();
    assert_eq!(param_db.num_numeric_ids(), 0);

    param_db.insert(numeric_id.clone(), param.clone()).unwrap();
    assert_eq!(param_db.num_numeric_ids(), 1);

    let retrieved_params = param_db.abbrev_to_parameter(&param.abbrev);
    assert_eq!(retrieved_params.len(), 1);
    let (retrieved_numeric_id, unique_param) = retrieved_params.first().unwrap();
    assert_eq!(&numeric_id, retrieved_numeric_id);
    assert_eq!(&param, unique_param);
}

#[test]
fn second_insert_of_same_id_fails_and_keeps_size() {
    let id = NumericId::new(0, 0, 0, 30, 0xFFFF, 0xFF, 0xFF);
    let mut db = ParameterDatabase::new();
    db.insert(id, Parameter::new("TMP", "Temperature", "K")).unwrap();
    let r = db.insert(id, Parameter::new("TMP2", "Other", "C"));
    assert_eq!(
        r,
        Err(ParameterInsertionError::NumericIdAlreadyExistsInNumericIdToParam((
            id,
            Parameter::new("TMP", "Temperature", "K")
        )))
    );
    assert_eq!(db.num_numeric_ids(), 1);
    assert_eq!(db.num_abbrevs(), 1);
    assert!(db.abbrev_to_parameter(&Abbrev("TMP2".to_string())).is_empty());
    assert_eq!(
        db.numeric_id_to_param(&id),
        Some(Parameter::new("TMP", "Temperature", "K"))
    );
}

#[test]
fn empty_abbreviation_is_never_indexed() {
    let mut db = ParameterDatabase::new();
    db.insert(NumericId::new(0, 0, 32, 30, 0xFFFF, 0xFF, 0xFF), Parameter::new("", "Wet-bulb potential temperature", "K")).unwrap();
    db.insert(NumericId::new(10, 0, 73, 30, 0xFFFF, 0xFF, 0xFF), Parameter::new("", "Whitecap fraction", "fraction")).unwrap();
    assert_eq!(db.num_numeric_ids(), 2);
    assert_eq!(db.num_abbrevs(), 0);
    assert!(db.abbrev_to_parameter(&Abbrev(String::new())).is_empty());
    assert!(db.abbrev_to_numeric_id(&Abbrev(String::new())).is_empty());
}

#[test]
fn shared_abbreviation_returns_all_ids_in_order() {
    let mut db = ParameterDatabase::new();
    let ncep = NumericId::new(0, 0, 192, 30, 7, 0xFF, 0xFF);
    let master = NumericId::new(0, 0, 16, 30, 0xFFFF, 0xFF, 0xFF);
    db.insert(ncep, Parameter::new("SNOHF", "Snow Phase Change Heat Flux", "W/(m^2)")).unwrap();
    db.insert(master, Parameter::new("SNOHF", "Snow phase change heat flux", "W/m^2")).unwrap();
    db.insert(NumericId::new(0, 0, 0, 30, 0xFFFF, 0xFF, 0xFF), Parameter::new("TMP", "Temperature", "K")).unwrap();
    let found = db.abbrev_to_parameter(&Abbrev("SNOHF".to_string()));
    assert_eq!(found.len(), 2);
    assert_eq!(found[0].0, master);
    assert_eq!(found[1].0, ncep);
    assert_eq!(found[0].1.name, "Snow phase change heat flux");
    assert_eq!(db.abbrev_to_numeric_id(&Abbrev("SNOHF".to_string())), vec![master, ncep]);
    assert_eq!(db.num_abbrevs(), 2);
    let shared = db.abbrevs_with_multiple_numeric_ids();
    assert_eq!(shared.len(), 1);
    assert_eq!(shared[0].0, Abbrev("SNOHF".to_string()));
    assert_eq!(shared[0].1, vec![master, ncep]);
}

#[test]
fn unknown_abbreviation_finds_nothing() {
    let db = ParameterDatabase::new();
    assert!(db.abbrev_to_parameter(&Abbrev("TMP".to_string())).is_empty());
    assert_eq!(db.numeric_id_to_param(&NumericId::new(0, 0, 0, 0, 0, 0, 0)), None);
}

#[test]
fn abbreviations_sorted_by_bytes() {
    let mut db = ParameterDatabase::new();
    for (i, a) in ["b", "B", "a", "b", "a", "ab"].iter().enumerate() {
        db.insert(NumericId::new(0, 0, i as u8, 0, 0, 0, 0), Parameter::new(a, "n", "u")).unwrap();
    }
    let shared = db.abbrevs_with_multiple_numeric_ids();
    let names: Vec<&str> = shared.iter().map(|(a, _)| a.0.as_str()).collect();
    assert_eq!(names, vec!["a", "b"]);
    assert_eq!(db.num_abbrevs(), 4);
}

#[test]
fn rows_with_reserved_missing_or_negative_subcategory_are_dropped() {
    assert!(keep_row(0, "temperature"));
    assert!(!keep_row(-1, "temperature"));
    assert!(!keep_row(5, "reserved"));
    assert!(!keep_row(5, "value is missing here"));
    assert!(row_passes_filter(3, "Pseudo-adiabatic potential temperature"));
    assert!(!row_passes_filter(192, "Reserved for local use"));
    assert!(!row_passes_filter(255, "MISSING"));
    assert!(!row_passes_filter(4, "Not Reserved"));
}

#[test]
fn table_file_names_are_classified() {
    assert_eq!(classify_table_file("grib2_table_4_2_local_index.csv"), Some(TableFile::LocalIndex));
    assert_eq!(
        classify_table_file("grib2_table_4_2_0_191.csv"),
        Some(TableFile::Master { discipline: 0, category: 191 })
    );
    assert_eq!(
        classify_table_file("grib2_table_4_2_10_0.csv"),
        Some(TableFile::Master { discipline: 10, category: 0 })
    );
    assert_eq!(classify_table_file("grib2_table_4_2_local_NCEP.csv"), Some(TableFile::Local));
    assert_eq!(classify_table_file("grib2_table_4_2_local_MRMS.csv"), Some(TableFile::Local));
    assert_eq!(classify_table_file("grib2_table_4_2_0_999.csv"), None);
    assert_eq!(classify_table_file("grib2_table_4_2_100_0.csv"), None);
    assert_eq!(classify_table_file("grib2_table_4_2_local_ncep.csv"), None);
    assert_eq!(classify_table_file("grib2_table_4_2_0_0.txt"), None);
    assert_eq!(classify_table_file("foo"), None);
}

#[test]
fn subcenter_codes() {
    assert_eq!(parse_subcenter_code(""), Ok(255));
    assert_eq!(parse_subcenter_code("65535"), Ok(255));
    assert_eq!(parse_subcenter_code("0"), Ok(0));
    assert_eq!(parse_subcenter_code("+14"), Ok(14));
    assert_eq!(parse_subcenter_code("255"), Ok(255));
    assert!(parse_subcenter_code("256").is_err());
    assert!(parse_subcenter_code("65536").is_err());
    assert!(parse_subcenter_code("-1").is_err());
    assert!(parse_subcenter_code("+").is_err());
    assert!(parse_subcenter_code("1x").is_err());
}

fn index_row(center: u16, subcenter: u8, file: &str) -> LocalIndexRow {
    LocalIndexRow { center_code: center, subcenter_code: subcenter, filename: file.to_string() }
}

#[test]
fn local_index_skips_known_duplicate_and_rejects_others() {
    let rows = vec![
        index_row(7, 255, "grib2_table_4_2_local_NCEP.csv"),
        index_row(8, 255, "grib2_table_4_2_local_NDFD.csv"),
        index_row(8, 255, "grib2_table_4_2_local_NDFD.csv"),
    ];
    let index = LocalIndex::from_rows(&rows).unwrap();
    assert_eq!(index.get(&"grib2_table_4_2_local_NCEP.csv".to_string()), Some((7, 255)));
    assert_eq!(index.get(&"grib2_table_4_2_local_NDFD.csv".to_string()), Some((8, 255)));
    assert_eq!(index.get(&"grib2_table_4_2_local_HPC.csv".to_string()), None);

    let rows = vec![index_row(7, 255, "a.csv"), index_row(7, 1, "a.csv")];
    let err = LocalIndex::from_rows(&rows).err().unwrap();
    assert_eq!(err.filename, "a.csv");
}

fn row(prod: Option<u8>, cat: Option<u8>, subcat: i16, short: &str, name: &str, unit: &str) -> TableRow {
    TableRow {
        prod,
        cat,
        subcat,
        short_name: short.to_string(),
        name: name.to_string(),
        unit: unit.to_string(),
    }
}

#[test]
fn populate_from_master_and_local_tables() {
    let index = LocalIndex::from_rows(&vec![index_row(7, 255, "grib2_table_4_2_local_NCEP.csv")]).unwrap();
    let tables = vec![
        TableSource { file_name: "grib2_table_4_2_local_index.csv".to_string(), rows: vec![] },
        TableSource {
            file_name: "grib2_table_4_2_0_0.csv".to_string(),
            rows: vec![
                row(None, None, -1, "", "comment", ""),
                row(None, None, 0, "TMP", "Temperature", "K"),
                row(None, None, 16, "SNOHF", "Snow phase change heat flux", "W/m^2"),
                row(None, None, 31, "", "Reserved", ""),
            ],
        },
        TableSource {
            file_name: "grib2_table_4_2_local_NCEP.csv".to_string(),
            rows: vec![
                row(Some(0), Some(0), 192, "SNOHF", "Snow Phase Change Heat Flux", "W/(m^2)"),
                row(Some(0), Some(0), 254, "", "Missing value", ""),
            ],
        },
    ];
    let db = ParameterDatabase::new().populate(&tables, &index).unwrap();
    assert_eq!(db.num_numeric_ids(), 3);
    assert_eq!(db.num_abbrevs(), 2);
    let snohf = db.abbrev_to_parameter(&Abbrev("SNOHF".to_string()));
    assert_eq!(snohf.len(), 2);
    assert_eq!(snohf[0].0, NumericId::new(0, 0, 16, 30, 0xFFFF, 0xFF, 0xFF));
    assert_eq!(snohf[1].0, NumericId::new(0, 0, 192, 30, 7, 255, 0xFF));
    assert_eq!(snohf[1].1, Parameter::new("SNOHF", "Snow Phase Change Heat Flux", "W/(m^2)"));
}

#[test]
fn populate_aborts_on_problems() {
    let index = LocalIndex::from_rows(&vec![]).unwrap();
    let unknown = vec![TableSource { file_name: "foo.csv".to_string(), rows: vec![] }];
    assert_eq!(
        ParameterDatabase::new().populate(&unknown, &index).err(),
        Some(PopulateError::UnrecognizedTableFile("foo.csv".to_string()))
    );
    let unlisted = vec![TableSource {
        file_name: "grib2_table_4_2_local_NCEP.csv".to_string(),
        rows: vec![row(Some(0), Some(0), 192, "SNOHF", "Snow", "W")],
    }];
    assert_eq!(
        ParameterDatabase::new().populate(&unlisted, &index).err(),
        Some(PopulateError::MissingLocalIndexEntry("grib2_table_4_2_local_NCEP.csv".to_string()))
    );
    let no_category = vec![TableSource {
        file_name: "grib2_table_4_2_local_NCEP.csv".to_string(),
        rows: vec![row(Some(0), None, 192, "SNOHF", "Snow", "W")],
    }];
    assert_eq!(
        ParameterDatabase::new().populate(&no_category, &index).err(),
        Some(PopulateError::MissingDisciplineOrCategory("grib2_table_4_2_local_NCEP.csv".to_string()))
    );
    let too_big = vec![TableSource {
        file_name: "grib2_table_4_2_0_0.csv".to_string(),
        rows: vec![row(None, None, 300, "X", "Big", "1")],
    }];
    assert_eq!(
        ParameterDatabase::new().populate(&too_big, &index).err(),
        Some(PopulateError::SubcategoryOutOfRange { file_name: "grib2_table_4_2_0_0.csv".to_string(), subcat: 300 })
    );
    let twice = vec![
        TableSource {
            file_name: "grib2_table_4_2_0_0.csv".to_string(),
            rows: vec![row(None, None, 0, "TMP", "Temperature", "K")],
        },
        TableSource {
            file_name: "grib2_table_4_2_0_0.csv".to_string(),
            rows: vec![row(None, None, 0, "TMP", "Temperature", "K")],
        },
    ];
    match ParameterDatabase::new().populate(&twice, &index) {
        Err(PopulateError::Insertion { file_name, .. }) => assert_eq!(file_name, "grib2_table_4_2_0_0.csv"),
        _ => panic!("expected a duplicate identifier"),
    }
}

#[test]
fn describe_duplicate_abbreviations() {
    let mut db = ParameterDatabase::new();
    db.insert(NumericId::new(0, 0, 192, 30, 7, 0xFF, 0xFF), Parameter::new("SNOHF", "Snow Phase Change Heat Flux", "W/(m^2)")).unwrap();
    db.insert(NumericId::new(0, 0, 16, 30, 0xFFFF, 0xFF, 0xFF), Parameter::new("SNOHF", "Snow phase change heat flux", "W/m^2")).unwrap();
    db.insert(NumericId::new(0, 0, 0, 30, 0xFFFF, 0xFF, 0xFF), Parameter::new("TMP", "Temperature", "K")).unwrap();
    let expected = "- SNOHF:\n\
    \x20   - name='Snow phase change heat flux', unit='W/m^2',\n\
    \x20       - discipline= 0, category=  0, number= 16, center=65535, subcenter=255\n\
    \x20   - name='Snow Phase Change Heat Flux', unit='W/(m^2)',\n\
    \x20       - discipline= 0, category=  0, number=192, center=    7, subcenter=255\n\
    \n1 abbreviations are associated with multiple parameters.\n";
    assert_eq!(db.describe_abbrevs_with_multiple_params(), expected);
    assert_eq!(
        ParameterDatabase::new().describe_abbrevs_with_multiple_params(),
        "\n0 abbreviations are associated with multiple parameters.\n"
    );
}
