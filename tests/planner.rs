use rdb_pagination::{
    FieldSpec, JoinError, JoinSpec, Name, NullStrategy, OrderBuilder, OrderBySchema, OrderMethod,
    OrderOptionError, OrderType, Pagination, PaginationOptions, Relationship, SchemaError, SqlJoin,
    SqlJoinsInsertError, SqlJoinsOps, SqlOrderByComponent, WalkError,
};

fn n(s: &'static str) -> Name {
    Name::Static(s)
}

fn component_relationship() -> Relationship {
    let mut relationship = Relationship::new(n("component"));
    relationship
        .join_check((n("component"), n("component_type_id")), (n("component_type"), n("id")), None)
        .unwrap();
    relationship
        .join_check(
            (n("component_type"), n("component_general_type_id")),
            (n("component_general_type"), n("id")),
            None,
        )
        .unwrap();
    relationship
        .join_check(
            (n("component_type"), n("component_vendor_id")),
            (n("component_vendor"), n("id")),
            None,
        )
        .unwrap();
    relationship
}

fn terms_of(components: &[SqlOrderByComponent]) -> Vec<(String, String, &'static str)> {
    components
        .iter()
        .map(|c| {
            (c.table_name.as_str().to_string(), c.column_name.as_str().to_string(), c.order_type.as_str())
        })
        .collect()
}

fn join_tables(joins: &[SqlJoin]) -> Vec<String> {
    joins.iter().map(|j| j.other_table_name.as_str().to_string()).collect()
}

#[test]
fn scenario_two_keys_join_only_what_they_touch() {
    let relationship = component_relationship();
    let mut builder = OrderBuilder::new(relationship, 2);
    builder.add_order_option((n("component"), n("id")), true, NullStrategy::Default, 107i8.into());
    builder.add_order_option(
        (n("component_type"), n("order")),
        false,
        NullStrategy::Default,
        101i8.into(),
    );
    let (joins, terms) = builder.build();
    assert_eq!(
        vec![
            ("component_type".to_string(), "order".to_string(), "ASC"),
            ("component".to_string(), "id".to_string(), "ASC"),
        ],
        terms_of(&terms)
    );
    assert_eq!(vec!["component_type".to_string()], join_tables(&joins));
}

#[test]
fn scenario_offset_and_limit_of_page_three() {
    let options = PaginationOptions::new().page(3).items_per_page(20);
    assert_eq!(40, options.offset());
    assert_eq!(Some(20), options.limit());
}

#[test]
fn scenario_page_clamped_to_page_count() {
    let pagination = Pagination::new().items_per_page(20).total_items(50).page(5);
    assert_eq!(3, pagination.get_total_pages());
    assert_eq!(3, pagination.get_page());
    assert_eq!(20, pagination.get_items_per_page());
    assert_eq!(50, pagination.get_total_items());
}

#[test]
fn scenario_nulls_first_prefix() {
    let relationship = Relationship::new(n("component_general_type"));
    let mut builder = OrderBuilder::new(relationship, 1);
    builder.add_order_option(
        (n("component_general_type"), n("order")),
        false,
        NullStrategy::First,
        101i8.into(),
    );
    let (joins, terms) = builder.build();
    assert!(joins.is_empty());
    let mut buffer = String::new();
    assert_eq!(
        "ORDER BY `component_general_type`.`order` IS NOT NULL, `component_general_type`.`order` ASC",
        SqlOrderByComponent::format_mysql_order_by_components(&terms, &mut buffer)
    );
}

#[test]
fn equal_ranks_keep_request_order() {
    let relationship = Relationship::new(n("t"));
    let mut builder = OrderBuilder::new(relationship, 4);
    builder.add_order_option((n("t"), n("a")), false, NullStrategy::Default, OrderMethod(2));
    builder.add_order_option((n("t"), n("b")), false, NullStrategy::Default, OrderMethod(-2));
    builder.add_order_option((n("t"), n("c")), false, NullStrategy::Default, OrderMethod(1));
    builder.add_order_option((n("t"), n("d")), false, NullStrategy::Default, OrderMethod(2));
    let (_, terms) = builder.build();
    assert_eq!(
        vec![
            ("t".to_string(), "c".to_string(), "ASC"),
            ("t".to_string(), "a".to_string(), "ASC"),
            ("t".to_string(), "b".to_string(), "DESC"),
            ("t".to_string(), "d".to_string(), "ASC"),
        ],
        terms_of(&terms)
    );
}

#[test]
fn extreme_priorities_sort_by_rank() {
    let relationship = Relationship::new(n("t"));
    let mut builder = OrderBuilder::new(relationship, 3);
    builder.add_order_option((n("t"), n("a")), false, NullStrategy::Default, OrderMethod(i16::MIN));
    builder.add_order_option((n("t"), n("b")), false, NullStrategy::Default, OrderMethod(i16::MAX));
    builder.add_order_option((n("t"), n("c")), false, NullStrategy::Default, OrderMethod(0));
    let (_, terms) = builder.build();
    assert_eq!(
        vec![("t".to_string(), "b".to_string(), "ASC"), ("t".to_string(), "a".to_string(), "DESC")],
        terms_of(&terms)
    );
}

#[test]
fn unique_key_prunes_dependent_tables() {
    let relationship = component_relationship();
    let mut builder = OrderBuilder::new(relationship, 4);
    builder.add_order_option((n("component_type"), n("name")), true, NullStrategy::Default, 1i8.into());
    builder.add_order_option(
        (n("component_type"), n("order")),
        false,
        NullStrategy::Default,
        2i8.into(),
    );
    builder.add_order_option(
        (n("component_vendor"), n("order")),
        false,
        NullStrategy::Default,
        3i8.into(),
    );
    builder.add_order_option((n("component"), n("id")), true, NullStrategy::Default, 4i8.into());
    let (joins, terms) = builder.build();
    assert_eq!(
        vec![
            ("component_type".to_string(), "name".to_string(), "ASC"),
            ("component".to_string(), "id".to_string(), "ASC"),
        ],
        terms_of(&terms)
    );
    assert_eq!(vec!["component_type".to_string()], join_tables(&joins));
}

#[test]
fn unique_base_key_prunes_everything_after_it() {
    let relationship = component_relationship();
    let mut builder = OrderBuilder::new(relationship, 3);
    builder.add_order_option((n("component"), n("id")), true, NullStrategy::Default, (-1i8).into());
    builder.add_order_option(
        (n("component_vendor"), n("order")),
        false,
        NullStrategy::Default,
        2i8.into(),
    );
    builder.add_order_option((n("component"), n("name")), false, NullStrategy::Default, 3i8.into());
    let (joins, terms) = builder.build();
    assert_eq!(vec![("component".to_string(), "id".to_string(), "DESC")], terms_of(&terms));
    assert!(joins.is_empty());
}

#[test]
fn primary_key_reference_resolves_to_foreign_side() {
    let relationship = component_relationship();
    let mut builder = OrderBuilder::new(relationship, 1);
    builder.add_order_option(
        (n("component_vendor"), n("id")),
        false,
        NullStrategy::Last,
        5i8.into(),
    );
    let (joins, terms) = builder.build();
    assert_eq!(
        vec![("component_type".to_string(), "component_vendor_id".to_string(), "ASC")],
        terms_of(&terms)
    );
    assert_eq!(vec!["component_type".to_string()], join_tables(&joins));
    let mut buffer = String::new();
    assert_eq!(
        "ORDER BY CASE WHEN [component_type].[component_vendor_id] IS NULL THEN 1 ELSE 0 END, \
         [component_type].[component_vendor_id] ASC",
        SqlOrderByComponent::format_mssql_order_by_components(&terms, &mut buffer)
    );
}

#[test]
fn shared_chain_is_joined_once() {
    let relationship = component_relationship();
    let mut builder = OrderBuilder::new(relationship, 2);
    builder.add_order_option(
        (n("component_vendor"), n("name")),
        false,
        NullStrategy::Default,
        1i8.into(),
    );
    builder.add_order_option(
        (n("component_general_type"), n("name")),
        false,
        NullStrategy::Default,
        2i8.into(),
    );
    let (joins, _) = builder.build();
    assert_eq!(
        vec![
            "component_type".to_string(),
            "component_vendor".to_string(),
            "component_general_type".to_string(),
        ],
        join_tables(&joins)
    );
}

#[test]
fn empty_builder_plans_nothing() {
    let builder = OrderBuilder::new(component_relationship(), 0);
    let (joins, terms) = builder.build();
    assert!(joins.is_empty());
    assert!(terms.is_empty());
    let mut buffer = String::from("kept");
    assert_eq!("", SqlJoin::format_mssql_join_clauses(&joins, &mut buffer));
    assert_eq!("", SqlOrderByComponent::format_sqlite_order_by_components(&terms, &mut buffer));
    assert_eq!("kept", buffer);
}

#[test]
fn checked_key_errors() {
    let mut builder = OrderBuilder::new(component_relationship(), 3);
    assert!(matches!(
        builder.add_order_option_check((n("unknown"), n("id")), true),
        Err(OrderOptionError::TableNotRecognized)
    ));
    assert!(builder.add_order_option_check((n("component_type"), n("id")), true).is_ok());
    assert!(matches!(
        builder.add_order_option_check((n("component"), n("component_type_id")), false),
        Err(OrderOptionError::TableColumnDuplicate)
    ));
    assert!(builder.add_order_option_check((n("component"), n("id")), true).is_ok());
    assert!(!OrderOptionError::TableNotRecognized.message().is_empty());
}

#[test]
fn join_check_errors() {
    let mut relationship = component_relationship();
    assert!(matches!(
        relationship.join_check((n("component"), n("x")), (n("component_type"), n("y")), None),
        Err(JoinError::PrimaryDuplicate)
    ));
    assert!(matches!(
        relationship.join_check((n("nowhere"), n("x")), (n("other"), n("y")), None),
        Err(JoinError::ForeignNotFound)
    ));
    assert!(JoinError::ForeignNotFound.message().contains("join it first"));
}

#[test]
fn related_tables_stop_before_the_base() {
    let relationship = component_relationship();
    let table = n("component_general_type");
    let related: Vec<String> = relationship
        .get_related_tables(&table)
        .iter()
        .map(|t| t.as_str().to_string())
        .collect();
    assert_eq!(vec!["component_type".to_string()], related);
    let table = n("component_type");
    assert!(relationship.get_related_tables(&table).is_empty());
    let base = n("component");
    assert!(relationship.get_related_tables(&base).is_empty());
}

#[test]
fn unchecked_join_replaces_edge() {
    let mut relationship = component_relationship();
    relationship.join(
        (n("component"), n("type_ref")),
        (n("component_type"), n("code")),
        Some(n("types")),
    );
    let mut builder = OrderBuilder::new(relationship, 1);
    builder.add_order_option(
        (n("component_type"), n("order")),
        false,
        NullStrategy::Default,
        1i8.into(),
    );
    let (joins, _) = builder.build();
    let mut buffer = String::new();
    assert_eq!(
        "LEFT JOIN `types` AS `component_type` ON `component_type`.`code` = `component`.`type_ref`",
        SqlJoin::format_mysql_join_clauses(&joins, &mut buffer)
    );
    buffer.clear();
    assert_eq!(
        "LEFT JOIN [types] AS [component_type] ON [component_type].[code] = [component].[type_ref]",
        joins[0].to_mssql_join_clause(&mut buffer)
    );
}

#[test]
fn add_join_conflict_and_duplicate() {
    let mut joins: Vec<SqlJoin> = Vec::new();
    let join = SqlJoin {
        other_table_name:  n("a"),
        other_column_name: n("id"),
        real_table_name:   None,
        using_table_name:  n("base"),
        using_column_name: Name::Dynamic("a_id".to_string()),
    };
    assert!(matches!(joins.add_join(join.clone()), Ok(true)));
    assert!(matches!(joins.add_join(join.clone()), Ok(false)));
    let other = SqlJoin { real_table_name: Some(n("alias")), ..join };
    assert!(matches!(joins.add_join(other), Err(SqlJoinsInsertError::OtherTableNameConflict)));
    assert_eq!(1, joins.len());
}

#[test]
fn names_compare_by_text() {
    assert!(Name::Static("abc") == Name::Dynamic("abc".to_string()));
    assert!(Name::Static("abc") != Name::Static("abd"));
    assert!(Name::Static("abc") < Name::Dynamic("abd".to_string()));
    assert!(Name::Static("b") > Name::Static("ab"));
    assert_eq!("xyz", Name::from("xyz").as_str());
    assert_eq!("owned", Name::from("owned".to_string()).to_text());
}

#[test]
fn order_type_text_and_sign() {
    assert_eq!("ASC", OrderType::from_order_method(OrderMethod(3)).as_str());
    assert_eq!("DESC", OrderType::from_order_method(OrderMethod(-3)).as_str());
    assert_eq!(128, OrderMethod::from(-128i8).rank());
}

#[test]
fn pagination_page_counts() {
    let all = Pagination::new().total_items(7);
    assert_eq!(1, all.get_total_pages());
    let single = Pagination::new().items_per_page(1).total_items(7).page(0);
    assert_eq!(7, single.get_total_pages());
    assert_eq!(1, single.get_page());
    let exact = Pagination::new().items_per_page(5).total_items(10).page(9);
    assert_eq!(2, exact.get_total_pages());
    assert_eq!(2, exact.get_page());
    let empty = Pagination::new().items_per_page(5).total_items(0);
    assert_eq!(0, empty.get_total_pages());
}

#[test]
fn limit_offset_texts() {
    let mut buffer = String::new();
    let no_limit = PaginationOptions::new().page(4);
    assert_eq!(0, no_limit.offset());
    assert_eq!(None, no_limit.limit());
    assert_eq!("", no_limit.to_mysql_limit_offset(&mut buffer));
    let options = PaginationOptions::new().page(2).items_per_page(1234567);
    assert_eq!(
        "LIMIT 1234567 OFFSET 1234567",
        options.to_sqlite_limit_offset(&mut buffer)
    );
    buffer.clear();
    assert_eq!(
        "OFFSET 1234567 ROWS FETCH NEXT 1234567 ROWS ONLY",
        options.to_mssql_limit_offset(&mut buffer)
    );
    buffer.clear();
    assert_eq!(
        "WHERE [row] BETWEEN 1234568 AND 2469134",
        options.to_mssql2008_limit_offset("row", &mut buffer)
    );
    let big = PaginationOptions::new().page(usize::MAX).items_per_page(1);
    buffer.clear();
    assert_eq!(
        "LIMIT 1 OFFSET 18446744073709551614",
        big.to_mysql_limit_offset(&mut buffer)
    );
}

fn component_schema() -> OrderBySchema {
    let joins = vec![
        JoinSpec {
            foreign:         (n("component"), n("component_type_id")),
            primary:         (n("component_type"), n("id")),
            real_table_name: None,
        },
        JoinSpec {
            foreign:         (n("component_type"), n("component_general_type_id")),
            primary:         (n("component_general_type"), n("id")),
            real_table_name: None,
        },
        JoinSpec {
            foreign:         (n("component_type"), n("component_vendor_id")),
            primary:         (n("component_vendor"), n("id")),
            real_table_name: None,
        },
    ];
    let field = |t: &'static str, c: &'static str, unique: bool, null_strategy: NullStrategy| {
        FieldSpec { table_column: (n(t), n(c)), unique, null_strategy }
    };
    let fields = vec![
        field("component_general_type", "id", true, NullStrategy::Default),
        field("component_general_type", "name", true, NullStrategy::Default),
        field("component_general_type", "code", true, NullStrategy::Default),
        field("component_general_type", "order", false, NullStrategy::Default),
        field("component_vendor", "id", true, NullStrategy::First),
        field("component_vendor", "name", true, NullStrategy::Default),
        field("component_vendor", "order", false, NullStrategy::Default),
        field("component_type", "id", true, NullStrategy::Default),
        field("component_type", "order", false, NullStrategy::Default),
        field("component", "id", true, NullStrategy::Default),
    ];
    OrderBySchema::new(n("component"), joins, fields).unwrap()
}

#[test]
fn component() {
    let schema = component_schema();
    assert_eq!("component", schema.table_name().as_str());
    assert_eq!(10, schema.field_count());
    let methods: Vec<OrderMethod> =
        [103i8, 0, 0, 102, 105, 0, 104, 106, 101, 107].iter().map(|m| OrderMethod::from(*m)).collect();

    let pagination_options = PaginationOptions::new().page(3).items_per_page(20);
    let mut buffer = String::new();
    assert_eq!("LIMIT 20 OFFSET 40", pagination_options.to_mysql_limit_offset(&mut buffer));
    buffer.clear();
    assert_eq!("LIMIT 20 OFFSET 40", pagination_options.to_sqlite_limit_offset(&mut buffer));
    buffer.clear();

    let (joins, order_by_components) = schema.to_sql(&methods);
    assert_eq!(
        "LEFT JOIN `component_type` ON `component_type`.`id` = \
         `component`.`component_type_id`\nLEFT JOIN `component_general_type` ON \
         `component_general_type`.`id` = `component_type`.`component_general_type_id`\nLEFT JOIN \
         `component_vendor` ON `component_vendor`.`id` = `component_type`.`component_vendor_id`",
        SqlJoin::format_mysql_join_clauses(&joins, &mut buffer)
    );
    buffer.clear();
    assert_eq!(
        "ORDER BY `component_type`.`order` ASC, `component_general_type`.`order` ASC, \
         `component_type`.`component_general_type_id` ASC, `component_vendor`.`order` ASC, \
         `component_type`.`component_vendor_id` IS NOT NULL, \
         `component_type`.`component_vendor_id` ASC, `component`.`component_type_id` ASC, \
         `component`.`id` ASC",
        SqlOrderByComponent::format_mysql_order_by_components(&order_by_components, &mut buffer)
    );
}

#[test]
fn schema_with_descending_override() {
    let schema = component_schema();
    let methods: Vec<OrderMethod> =
        [-1i8, 0, 0, 102, 105, 0, 104, 106, 101, 107].iter().map(|m| OrderMethod::from(*m)).collect();
    let (joins, order_by_components) = schema.to_sql(&methods);
    let mut buffer = String::new();
    assert_eq!(
        "LEFT JOIN `component_type` ON `component_type`.`id` = `component`.`component_type_id`\nLEFT \
         JOIN `component_vendor` ON `component_vendor`.`id` = `component_type`.`component_vendor_id`",
        SqlJoin::format_mysql_join_clauses(&joins, &mut buffer)
    );
    buffer.clear();
    assert_eq!(
        "ORDER BY `component_type`.`component_general_type_id` DESC, `component_type`.`order` ASC, \
         `component_vendor`.`order` ASC, `component_type`.`component_vendor_id` IS NOT NULL, \
         `component_type`.`component_vendor_id` ASC, `component`.`component_type_id` ASC, \
         `component`.`id` ASC",
        SqlOrderByComponent::format_mysql_order_by_components(&order_by_components, &mut buffer)
    );
}

#[test]
fn schema_errors() {
    let bad_join = vec![JoinSpec {
        foreign:         (n("nowhere"), n("x")),
        primary:         (n("a"), n("y")),
        real_table_name: None,
    }];
    assert!(matches!(
        OrderBySchema::new(n("base"), bad_join, Vec::new()),
        Err(SchemaError::Join(JoinError::ForeignNotFound))
    ));
    let twice = vec![
        JoinSpec { foreign: (n("base"), n("a_id")), primary: (n("a"), n("id")), real_table_name: None },
        JoinSpec { foreign: (n("base"), n("a2_id")), primary: (n("a"), n("id")), real_table_name: None },
    ];
    assert!(matches!(
        OrderBySchema::new(n("base"), twice, Vec::new()),
        Err(SchemaError::Join(JoinError::PrimaryDuplicate))
    ));
    let unknown = vec![FieldSpec {
        table_column:  (n("other"), n("id")),
        unique:        true,
        null_strategy: NullStrategy::Default,
    }];
    assert!(matches!(
        OrderBySchema::new(n("base"), Vec::new(), unknown),
        Err(SchemaError::Field(OrderOptionError::TableNotRecognized))
    ));
    let repeated = vec![
        FieldSpec { table_column: (n("base"), n("id")), unique: true, null_strategy: NullStrategy::Default },
        FieldSpec { table_column: (n("base"), n("id")), unique: false, null_strategy: NullStrategy::Last },
    ];
    assert!(matches!(
        OrderBySchema::new(n("base"), Vec::new(), repeated),
        Err(SchemaError::Field(OrderOptionError::TableColumnDuplicate))
    ));
}

#[test]
fn cycles_and_unknown_tables_are_not_buildable() {
    let mut relationship = Relationship::new(n("a"));
    relationship.join((n("b"), n("x")), (n("c"), n("y")), None);
    relationship.join((n("c"), n("y")), (n("b"), n("x")), None);
    assert!(!relationship.reaches_base(&n("c")));
    assert!(matches!(relationship.check_walk(&n("c")), Err(WalkError::CycleDetected)));
    assert!(matches!(relationship.check_walk(&n("unknown")), Err(WalkError::TableNotJoined)));
    assert!(relationship.check_walk(&n("a")).is_ok());
    assert!(!relationship.reaches_base(&n("unknown")));
    assert!(relationship.reaches_base(&n("a")));
    let mut builder = OrderBuilder::new(relationship, 1);
    builder.add_order_option((n("c"), n("z")), false, NullStrategy::Default, 1i8.into());
    assert!(!builder.can_build());
    assert!(matches!(builder.check_build(), Err(WalkError::CycleDetected)));

    let mut builder = OrderBuilder::new(component_relationship(), 1);
    builder.add_order_option((n("component_vendor"), n("id")), false, NullStrategy::Default, 1i8.into());
    assert!(builder.can_build());
    assert!(builder.check_build().is_ok());
    builder.add_order_option((n("elsewhere"), n("id")), false, NullStrategy::Default, 2i8.into());
    assert!(!builder.can_build());
    assert!(matches!(builder.check_build(), Err(WalkError::TableNotJoined)));
}

#[test]
fn resolved_reference_stays_resolved() {
    let relationship = component_relationship();
    let mut builder = OrderBuilder::new(relationship.clone(), 1);
    builder.add_order_option(
        (n("component"), n("component_type_id")),
        false,
        NullStrategy::Default,
        1i8.into(),
    );
    let (joins, terms) = builder.build();
    assert_eq!(
        vec![("component".to_string(), "component_type_id".to_string(), "ASC")],
        terms_of(&terms)
    );
    assert!(joins.is_empty());
    let mut builder = OrderBuilder::new(relationship, 1);
    builder.add_order_option((n("component_type"), n("id")), false, NullStrategy::Default, 1i8.into());
    let (_, terms) = builder.build();
    assert_eq!(
        vec![("component".to_string(), "component_type_id".to_string(), "ASC")],
        terms_of(&terms)
    );
}

#[test]
fn equal_names_hash_alike() {
    let mut set = std::collections::HashSet::new();
    set.insert(Name::Static("table"));
    set.insert(Name::Dynamic("table".to_string()));
    set.insert(Name::Static("other"));
    assert_eq!(2, set.len());
}
