use formula::arguments::Arguments;
use formula::arguments::Create;
use formula::arguments::Evaluate;
use formula::arguments::RootSubcommand;
use formula::arguments::Task;
use formula::arguments::evaluate;
use formula::metadata::ContentKind;
use formula::metadata::EvalSetupError;
use formula::metadata::EvaluationPlan;
use formula::metadata::HeaderPlan;
use formula::metadata::MetadataEntry;
use formula::metadata::check_header;
use formula::metadata::formula_metadata;
use formula::metadata::plan_from_metadata;
use formula::metadata::variable_metadata;
use formula::metadata::variable_names_to_query;
use formula::symbols::to_cleaned_symbols;

#[test]
fn the_evaluate_subcommand_asks_for_evaluation() {
    let arguments = Arguments {
        subcommand: RootSubcommand::Evaluate(Evaluate { input: String::from("formula.fef") }),
    };
    assert_eq!(evaluate(arguments), Task::EvaluateFile { input: String::from("formula.fef") });
}

#[test]
fn the_create_subcommand_asks_for_creation() {
    let arguments = Arguments {
        subcommand: RootSubcommand::Create(Create { output: String::from("out.fef") }),
    };
    assert_eq!(evaluate(arguments), Task::CreateFromStdin { output: String::from("out.fef") });
}

#[test]
fn only_version_zero_headers_are_accepted() {
    assert_eq!(
        check_header(0, ContentKind::SingleFormula),
        Ok(HeaderPlan { read_configuration: true, read_metadata: true })
    );
    assert_eq!(
        check_header(0, ContentKind::RawFormula),
        Ok(HeaderPlan { read_configuration: false, read_metadata: false })
    );
    assert_eq!(
        check_header(1, ContentKind::SingleFormula),
        Err(EvalSetupError::UnsupportedVersion { version: 1 })
    );
    assert_eq!(check_header(0, ContentKind::Other), Err(EvalSetupError::UnsupportedContentType));
}

#[test]
fn metadata_yields_the_name_and_the_variables_in_order() {
    let metadata = vec![
        MetadataEntry::Name(String::from("energy")),
        MetadataEntry::VariableName { identifier: 0, name: String::from("m") },
        MetadataEntry::Other,
        MetadataEntry::VariableName { identifier: 1, name: String::from("c") },
    ];
    let plan = plan_from_metadata(metadata).expect("metadata should be accepted");
    assert_eq!(plan.formula_name, Some(String::from("energy")));
    assert_eq!(
        plan.variables,
        vec![(0, String::from("m")), (1, String::from("c"))]
    );
}

#[test]
fn metadata_without_a_name_yields_none() {
    let plan = plan_from_metadata(vec![MetadataEntry::Other]).expect("accepted");
    assert_eq!(
        plan,
        EvaluationPlan { formula_name: None, variables: vec![] }
    );
}

#[test]
fn a_second_name_record_is_rejected() {
    let metadata = vec![
        MetadataEntry::Name(String::from("a")),
        MetadataEntry::Name(String::from("b")),
    ];
    assert_eq!(plan_from_metadata(metadata), Err(EvalSetupError::MultipleNameRecords));
}

#[test]
fn variable_metadata_binds_each_index_to_its_name() {
    let variables = vec![String::from("x"), String::from("y")];
    let records = variable_metadata(&variables);
    assert_eq!(
        records,
        vec![
            MetadataEntry::VariableName { identifier: 0, name: String::from("x") },
            MetadataEntry::VariableName { identifier: 1, name: String::from("y") },
        ]
    );
}

#[test]
fn formula_metadata_puts_the_name_record_first() {
    let variables = vec![String::from("x")];
    let records = formula_metadata(Some(String::from("f")), &variables);
    assert_eq!(
        records,
        vec![
            MetadataEntry::Name(String::from("f")),
            MetadataEntry::VariableName { identifier: 0, name: String::from("x") },
        ]
    );
    let unnamed = formula_metadata(None, &variables);
    assert_eq!(
        unnamed,
        vec![MetadataEntry::VariableName { identifier: 0, name: String::from("x") }]
    );
}

#[test]
fn querying_lists_the_variable_names_in_record_order() {
    let metadata = vec![
        MetadataEntry::Name(String::from("f")),
        MetadataEntry::VariableName { identifier: 0, name: String::from("x") },
        MetadataEntry::VariableName { identifier: 1, name: String::from("y") },
    ];
    assert_eq!(
        variable_names_to_query(&metadata),
        vec![String::from("x"), String::from("y")]
    );
}

#[test]
fn cleaning_removes_every_none_and_keeps_the_order() {
    let mut values: Vec<Option<u32>> = vec![Some(1), None, Some(2), None, None, Some(3)];
    to_cleaned_symbols(&mut values);
    assert_eq!(values, vec![Some(1), Some(2), Some(3)]);
    let mut empty: Vec<Option<u32>> = vec![];
    to_cleaned_symbols(&mut empty);
    assert_eq!(empty, vec![]);
}
