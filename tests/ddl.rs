use transform::ddl::{
    describe_alter_index_options, describe_alter_object_rename, describe_create_database,
    describe_create_index, describe_create_role, describe_create_schema, describe_create_sink,
    describe_create_source, describe_create_table, describe_create_type, describe_create_view,
    describe_create_views, describe_drop_database, describe_drop_objects, plan_create_type,
    CreateIndexStatement, CreateSinkStatement, CreateSourceStatement, CreateTableStatement,
    CreateTypeAs, CreateTypeStatement, CreateViewStatement, CreateViewsStatement, CustomType,
    IfExistsBehavior, TypeCategory, TypeOption, TypeOptionValue,
    plan_alter_index_options, plan_alter_object_rename, plan_create_database, plan_create_role,
    plan_create_schema, plan_drop_database, plan_drop_item, plan_drop_items, plan_drop_objects,
    plan_drop_role, plan_drop_schema, AlterIndexAction, AlterIndexStatement,
    AlterObjectRenameStatement, Catalog, CatalogDatabase, CatalogItem, CatalogItemType,
    CatalogSchema, CreateDatabaseStatement, CreateRoleOption, CreateRoleStatement,
    CreateSchemaStatement, DatabaseSpecifier, DropDatabaseStatement, DropObjectsStatement,
    FullName, GlobalId, IndexOption, IndexOptionName, ObjectType, Plan, PlanError, SchemaName,
    StatementContext, StatementDesc, UnresolvedObjectName,
};

fn s(x: &str) -> String {
    x.to_string()
}

fn name(parts: &[&str]) -> UnresolvedObjectName {
    UnresolvedObjectName(parts.iter().map(|p| p.to_string()).collect())
}

fn full(db: &str, schema: &str, item: &str) -> FullName {
    FullName { database: DatabaseSpecifier::Name(s(db)), schema: s(schema), item: s(item) }
}

fn item(id: GlobalId, n: FullName, item_type: CatalogItemType, used_by: Vec<GlobalId>) -> CatalogItem {
    CatalogItem { id, name: n, item_type, used_by, type_category: None }
}

fn type_item(id: u64, n: &str, category: TypeCategory) -> CatalogItem {
    CatalogItem {
        id: GlobalId::System(id),
        name: full("main", "public", n),
        item_type: CatalogItemType::Type,
        used_by: vec![],
        type_category: Some(category),
    }
}

fn scx() -> StatementContext {
    StatementContext {
        catalog: Catalog {
            user: s("admin"),
            default_database: s("main"),
            default_schema: s("public"),
            databases: vec![
                CatalogDatabase { name: s("main"), has_schemas: true },
                CatalogDatabase { name: s("empty"), has_schemas: false },
            ],
            schemas: vec![
                CatalogSchema {
                    name: SchemaName { database: DatabaseSpecifier::Ambient, schema: s("mz_catalog") },
                    has_items: true,
                },
                CatalogSchema {
                    name: SchemaName { database: DatabaseSpecifier::Name(s("main")), schema: s("public") },
                    has_items: true,
                },
                CatalogSchema {
                    name: SchemaName { database: DatabaseSpecifier::Name(s("main")), schema: s("scratch") },
                    has_items: false,
                },
            ],
            items: vec![
                item(GlobalId::User(1), full("main", "public", "t"), CatalogItemType::Table, vec![GlobalId::User(2), GlobalId::User(3)]),
                item(GlobalId::User(2), full("main", "public", "t_idx"), CatalogItemType::Index, vec![]),
                item(GlobalId::User(3), full("main", "public", "v"), CatalogItemType::View, vec![]),
                item(GlobalId::User(4), full("main", "public", "lonely"), CatalogItemType::Table, vec![GlobalId::User(2)]),
                item(GlobalId::System(5), full("main", "public", "sys"), CatalogItemType::View, vec![]),
                item(GlobalId::User(6), full("main", "public", "ty"), CatalogItemType::Type, vec![GlobalId::User(2)]),
                type_item(7, "text", TypeCategory::Text),
                type_item(8, "int8", TypeCategory::Other),
                type_item(9, "char", TypeCategory::Char),
            ],
            roles: vec![s("admin"), s("alice")],
        },
    }
}

fn no_rows() -> StatementDesc {
    StatementDesc { relation_desc: None }
}

#[test]
fn describes_return_no_rows() {
    let c = scx();
    let d = describe_create_database(&c, CreateDatabaseStatement { name: s("d"), if_not_exists: false });
    assert_eq!(d.ok(), Some(no_rows()));
    let d = describe_create_schema(&c, CreateSchemaStatement { name: name(&["x"]), if_not_exists: false });
    assert_eq!(d.ok(), Some(no_rows()));
    let d = describe_create_role(&c, CreateRoleStatement { name: s("r"), is_user: true, options: vec![] });
    assert_eq!(d.ok(), Some(no_rows()));
    let d = describe_drop_database(&c, DropDatabaseStatement { name: s("d"), if_exists: false, restrict: false });
    assert_eq!(d.ok(), Some(no_rows()));
    let d = describe_drop_objects(
        &c,
        DropObjectsStatement { materialized: false, object_type: ObjectType::View, if_exists: false, names: vec![], cascade: false },
    );
    assert_eq!(d.ok(), Some(no_rows()));
    let d = describe_alter_index_options(
        &c,
        AlterIndexStatement { index_name: name(&["t_idx"]), if_exists: false, action: AlterIndexAction::Enable },
    );
    assert_eq!(d.ok(), Some(no_rows()));
    let d = describe_alter_object_rename(
        &c,
        AlterObjectRenameStatement { object_type: ObjectType::View, if_exists: false, name: name(&["v"]), to_item_name: s("w") },
    );
    assert_eq!(d.ok(), Some(no_rows()));
}

#[test]
fn create_database_plan() {
    let p = plan_create_database(&scx(), CreateDatabaseStatement { name: s("d"), if_not_exists: true });
    assert!(matches!(p, Ok(Plan::CreateDatabase { ref name, if_not_exists: true }) if name == "d"));
}

#[test]
fn create_schema_in_default_database() {
    let p = plan_create_schema(&scx(), CreateSchemaStatement { name: name(&["s1"]), if_not_exists: false });
    match p {
        Ok(Plan::CreateSchema { database_name: DatabaseSpecifier::Name(db), schema_name, if_not_exists }) => {
            assert_eq!(db, "main");
            assert_eq!(schema_name, "s1");
            assert!(!if_not_exists);
        },
        other => panic!("unexpected {:?}", other),
    }
}

#[test]
fn create_schema_in_named_database() {
    let p = plan_create_schema(&scx(), CreateSchemaStatement { name: name(&["db", "s1"]), if_not_exists: true });
    match p {
        Ok(Plan::CreateSchema { database_name: DatabaseSpecifier::Name(db), schema_name, .. }) => {
            assert_eq!(db, "db");
            assert_eq!(schema_name, "s1");
        },
        other => panic!("unexpected {:?}", other),
    }
}

#[test]
fn create_schema_with_three_parts_fails() {
    let p = plan_create_schema(&scx(), CreateSchemaStatement { name: name(&["a", "b", "c"]), if_not_exists: false });
    assert!(matches!(p, Err(PlanError::SchemaNameTooLong)));
}

fn role(is_user: bool, options: Vec<CreateRoleOption>) -> Result<Plan, PlanError> {
    plan_create_role(&scx(), CreateRoleStatement { name: s("bob"), is_user, options })
}

#[test]
fn create_role_rules() {
    assert!(matches!(role(true, vec![CreateRoleOption::SuperUser]), Ok(Plan::CreateRole { ref name }) if name == "bob"));
    assert!(matches!(role(false, vec![CreateRoleOption::Login, CreateRoleOption::SuperUser]), Ok(Plan::CreateRole { .. })));
    assert!(matches!(role(false, vec![CreateRoleOption::SuperUser]), Err(PlanError::Unsupported(_))));
    assert!(matches!(role(true, vec![CreateRoleOption::NoLogin, CreateRoleOption::SuperUser]), Err(PlanError::Unsupported(_))));
    assert!(matches!(role(true, vec![]), Err(PlanError::Unsupported(_))));
    assert!(matches!(role(true, vec![CreateRoleOption::NoSuperUser]), Err(PlanError::Unsupported(_))));
    assert!(matches!(role(true, vec![CreateRoleOption::Login, CreateRoleOption::NoLogin, CreateRoleOption::SuperUser]), Err(PlanError::ConflictingRoleOptions)));
    assert!(matches!(role(true, vec![CreateRoleOption::SuperUser, CreateRoleOption::SuperUser]), Err(PlanError::ConflictingRoleOptions)));
}

fn drop_db(n: &str, if_exists: bool, restrict: bool) -> Result<Plan, PlanError> {
    plan_drop_database(&scx(), DropDatabaseStatement { name: s(n), if_exists, restrict })
}

#[test]
fn drop_database_rules() {
    assert!(matches!(drop_db("empty", false, true), Ok(Plan::DropDatabase { ref name }) if name == "empty"));
    assert!(matches!(drop_db("main", false, false), Ok(Plan::DropDatabase { .. })));
    assert!(matches!(drop_db("main", false, true), Err(PlanError::DatabaseNotEmpty(_))));
    assert!(matches!(drop_db("nope", true, false), Ok(Plan::DropDatabase { ref name }) if name.is_empty()));
    assert!(matches!(drop_db("nope", false, false), Err(PlanError::UnknownDatabase(_))));
}

#[test]
fn drop_schema_rules() {
    let c = scx();
    assert!(matches!(plan_drop_schema(&c, false, vec![], false), Err(PlanError::Unsupported(_))));
    assert!(matches!(
        plan_drop_schema(&c, false, vec![name(&["mz_catalog"])], true),
        Err(PlanError::RequiredBySystem)
    ));
    assert!(matches!(plan_drop_schema(&c, false, vec![name(&["public"])], false), Err(PlanError::SchemaNotEmpty)));
    match plan_drop_schema(&c, false, vec![name(&["public"])], true) {
        Ok(Plan::DropSchema { name: SchemaName { database: DatabaseSpecifier::Name(db), schema } }) => {
            assert_eq!(db, "main");
            assert_eq!(schema, "public");
        },
        other => panic!("unexpected {:?}", other),
    }
    assert!(matches!(plan_drop_schema(&c, false, vec![name(&["main", "scratch"])], false), Ok(Plan::DropSchema { .. })));
    match plan_drop_schema(&c, true, vec![name(&["nope"])], false) {
        Ok(Plan::DropSchema { name: SchemaName { database: DatabaseSpecifier::Ambient, schema } }) => {
            assert_eq!(schema, "noexist");
        },
        other => panic!("unexpected {:?}", other),
    }
    assert!(matches!(plan_drop_schema(&c, false, vec![name(&["nope"])], false), Err(PlanError::UnknownSchema)));
}

#[test]
fn drop_role_rules() {
    let c = scx();
    match plan_drop_role(&c, true, vec![name(&["alice"]), name(&["ghost"])]) {
        Ok(Plan::DropRoles { names }) => assert_eq!(names, vec![s("alice")]),
        other => panic!("unexpected {:?}", other),
    }
    assert!(matches!(plan_drop_role(&c, false, vec![name(&["ghost"])]), Err(PlanError::UnknownRole(_))));
    assert!(matches!(plan_drop_role(&c, false, vec![name(&["a", "b"])]), Err(PlanError::InvalidRoleName)));
    assert!(matches!(plan_drop_role(&c, false, vec![name(&["admin"])]), Err(PlanError::DropCurrentUser)));
}

#[test]
fn drop_item_rules() {
    let c = scx();
    let items = &c.catalog.items;
    assert!(matches!(plan_drop_item(&c, ObjectType::View, &items[4], false), Err(PlanError::RequiredBySystem)));
    assert!(matches!(plan_drop_item(&c, ObjectType::View, &items[0], false), Err(PlanError::WrongItemType(CatalogItemType::Table))));
    assert!(matches!(
        plan_drop_item(&c, ObjectType::Table, &items[0], false),
        Err(PlanError::StillDependedUpon(GlobalId::User(3)))
    ));
    assert!(matches!(plan_drop_item(&c, ObjectType::Table, &items[0], true), Ok(Some(GlobalId::User(1)))));
    // An index depending on a table does not block the drop.
    assert!(matches!(plan_drop_item(&c, ObjectType::Table, &items[3], false), Ok(Some(GlobalId::User(4)))));
    // It does block dropping a type.
    assert!(matches!(plan_drop_item(&c, ObjectType::Type, &items[5], false), Err(PlanError::StillDependedUpon(_))));
}

#[test]
fn drop_items_collects_ids_and_skips_missing() {
    let c = scx();
    match plan_drop_items(&c, ObjectType::View, true, vec![name(&["v"]), name(&["missing"])], false) {
        Ok(Plan::DropItems { items, ty }) => {
            assert_eq!(items, vec![GlobalId::User(3)]);
            assert_eq!(ty, ObjectType::View);
        },
        other => panic!("unexpected {:?}", other),
    }
    assert!(matches!(
        plan_drop_items(&c, ObjectType::View, false, vec![name(&["missing"])], false),
        Err(PlanError::UnknownItem)
    ));
    assert!(matches!(
        plan_drop_items(&c, ObjectType::View, false, vec![name(&["main", "public", "v"])], false),
        Ok(Plan::DropItems { .. })
    ));
}

#[test]
fn drop_objects_dispatches_by_type() {
    let c = scx();
    let stmt = |object_type, materialized, names| DropObjectsStatement { materialized, object_type, if_exists: false, names, cascade: false };
    assert!(matches!(plan_drop_objects(&c, stmt(ObjectType::View, true, vec![name(&["v"])])), Err(PlanError::DropMaterialized(ObjectType::View))));
    assert!(matches!(plan_drop_objects(&c, stmt(ObjectType::View, false, vec![name(&["v"])])), Ok(Plan::DropItems { .. })));
    assert!(matches!(plan_drop_objects(&c, stmt(ObjectType::Schema, false, vec![name(&["scratch"])])), Ok(Plan::DropSchema { .. })));
    assert!(matches!(plan_drop_objects(&c, stmt(ObjectType::Role, false, vec![name(&["alice"])])), Ok(Plan::DropRoles { .. })));
}

fn alter_index(n: &[&str], if_exists: bool, action: AlterIndexAction) -> Result<Plan, PlanError> {
    plan_alter_index_options(&scx(), AlterIndexStatement { index_name: name(n), if_exists, action })
}

#[test]
fn alter_index_rules() {
    assert!(matches!(alter_index(&["t_idx"], false, AlterIndexAction::Enable), Ok(Plan::AlterIndexEnable { id: GlobalId::User(2) })));
    match alter_index(&["t_idx"], false, AlterIndexAction::ResetOptions(vec![s("logical_compaction_window"), s("bogus")])) {
        Ok(Plan::AlterIndexResetOptions { id, options }) => {
            assert_eq!(id, GlobalId::User(2));
            assert_eq!(options, vec![IndexOptionName::LogicalCompactionWindow]);
        },
        other => panic!("unexpected {:?}", other),
    }
    let opts = vec![IndexOption::LogicalCompactionWindow(Some(1000))];
    match alter_index(&["t_idx"], false, AlterIndexAction::SetOptions(opts.clone())) {
        Ok(Plan::AlterIndexSetOptions { options, .. }) => assert_eq!(options, opts),
        other => panic!("unexpected {:?}", other),
    }
    assert!(matches!(alter_index(&["t"], false, AlterIndexAction::Enable), Err(PlanError::WrongItemType(CatalogItemType::Table))));
    assert!(matches!(alter_index(&["nope"], true, AlterIndexAction::Enable), Ok(Plan::AlterNoop { object_type: ObjectType::Index })));
    assert!(matches!(alter_index(&["nope"], false, AlterIndexAction::Enable), Err(PlanError::UnknownItem)));
}

fn rename(object_type: ObjectType, n: &[&str], to: &str, if_exists: bool) -> Result<Plan, PlanError> {
    plan_alter_object_rename(
        &scx(),
        AlterObjectRenameStatement { object_type, if_exists, name: name(n), to_item_name: s(to) },
    )
}

#[test]
fn rename_rules() {
    match rename(ObjectType::View, &["v"], "w", false) {
        Ok(Plan::AlterItemRename { id, to_name, object_type }) => {
            assert_eq!(id, GlobalId::User(3));
            assert_eq!(to_name, "w");
            assert_eq!(object_type, ObjectType::View);
        },
        other => panic!("unexpected {:?}", other),
    }
    assert!(matches!(rename(ObjectType::View, &["v"], "t", false), Err(PlanError::NameTaken(_))));
    assert!(matches!(rename(ObjectType::Table, &["v"], "w", false), Err(PlanError::WrongItemType(_))));
    assert!(matches!(rename(ObjectType::View, &["nope"], "w", true), Ok(Plan::AlterNoop { object_type: ObjectType::View })));
    assert!(matches!(rename(ObjectType::View, &["nope"], "w", false), Err(PlanError::UnknownItem)));
}

#[test]
fn describes_of_creates_return_no_rows() {
    let c = scx();
    let d = describe_create_table(&c, CreateTableStatement { name: name(&["t2"]), if_not_exists: false, temporary: false });
    assert_eq!(d.ok(), Some(no_rows()));
    let d = describe_create_source(&c, CreateSourceStatement { name: name(&["src"]), if_not_exists: false, materialized: true });
    assert_eq!(d.ok(), Some(no_rows()));
    let d = describe_create_view(
        &c,
        CreateViewStatement { name: name(&["v2"]), if_exists: IfExistsBehavior::Error, temporary: false, materialized: false },
    );
    assert_eq!(d.ok(), Some(no_rows()));
    let d = describe_create_views(&c, CreateViewsStatement { if_exists: IfExistsBehavior::Skip, temporary: false, materialized: true });
    assert_eq!(d.ok(), Some(no_rows()));
    let d = describe_create_sink(&c, CreateSinkStatement { name: name(&["snk"]), from: name(&["v"]), if_not_exists: false });
    assert_eq!(d.ok(), Some(no_rows()));
    let d = describe_create_index(&c, CreateIndexStatement { name: None, on_name: name(&["t"]), if_not_exists: false });
    assert_eq!(d.ok(), Some(no_rows()));
    let d = describe_create_type(&c, CreateTypeStatement { name: name(&["ty2"]), as_type: CreateTypeAs::List, with_options: vec![] });
    assert_eq!(d.ok(), Some(no_rows()));
}

fn opt(key: &str, ty: &str) -> TypeOption {
    TypeOption { key: s(key), value: TypeOptionValue::DataType { name: name(&[ty]), modifiers: vec![] } }
}

fn create_type(n: &str, as_type: CreateTypeAs, with_options: Vec<TypeOption>) -> Result<Plan, PlanError> {
    plan_create_type(&scx(), CreateTypeStatement { name: name(&[n]), as_type, with_options })
}

#[test]
fn create_list_type() {
    match create_type("int_list", CreateTypeAs::List, vec![opt("element_type", "int8")]) {
        Ok(Plan::CreateType { name, inner, depends_on }) => {
            assert_eq!(name.item, "int_list");
            assert_eq!(name.schema, "public");
            assert_eq!(inner, CustomType::List { element_id: GlobalId::System(8) });
            assert_eq!(depends_on, vec![GlobalId::System(8)]);
        },
        other => panic!("unexpected {:?}", other),
    }
}

#[test]
fn create_map_type() {
    let opts = vec![opt("key_type", "text"), opt("value_type", "int8")];
    match create_type("m", CreateTypeAs::MapType, opts) {
        Ok(Plan::CreateType { inner, depends_on, .. }) => {
            assert_eq!(inner, CustomType::MapType { key_id: GlobalId::System(7), value_id: GlobalId::System(8) });
            assert_eq!(depends_on, vec![GlobalId::System(7), GlobalId::System(8)]);
        },
        other => panic!("unexpected {:?}", other),
    }
}

#[test]
fn create_type_errors() {
    assert!(matches!(create_type("l", CreateTypeAs::List, vec![]), Err(PlanError::MissingOption(_))));
    assert!(matches!(
        create_type("l", CreateTypeAs::List, vec![TypeOption { key: s("element_type"), value: TypeOptionValue::Other }]),
        Err(PlanError::NotADataType(_))
    ));
    assert!(matches!(create_type("l", CreateTypeAs::List, vec![opt("element_type", "nope")]), Err(PlanError::UnknownItem)));
    let with_mods = TypeOption {
        key: s("element_type"),
        value: TypeOptionValue::DataType { name: name(&["int8"]), modifiers: vec![3] },
    };
    assert!(matches!(create_type("l", CreateTypeAs::List, vec![with_mods]), Err(PlanError::TypeModifiers(_))));
    assert!(matches!(create_type("l", CreateTypeAs::List, vec![opt("element_type", "t")]), Err(PlanError::NotAType(_))));
    assert!(matches!(create_type("l", CreateTypeAs::List, vec![opt("element_type", "char")]), Err(PlanError::Unsupported(_))));
    assert!(matches!(
        create_type("l", CreateTypeAs::List, vec![opt("element_type", "int8"), opt("extra", "int8")]),
        Err(PlanError::UnexpectedOption(_))
    ));
    assert!(matches!(create_type("ty", CreateTypeAs::List, vec![opt("element_type", "int8")]), Err(PlanError::ItemExists)));
    assert!(matches!(
        create_type("m", CreateTypeAs::MapType, vec![opt("key_type", "int8"), opt("value_type", "int8")]),
        Err(PlanError::KeyTypeNotText)
    ));
    assert!(matches!(create_type("m", CreateTypeAs::MapType, vec![opt("key_type", "text")]), Err(PlanError::MissingOption(_))));
}

#[test]
fn create_type_later_option_overrides_earlier() {
    let opts = vec![opt("element_type", "char"), opt("element_type", "int8")];
    assert!(matches!(create_type("l", CreateTypeAs::List, opts), Ok(Plan::CreateType { .. })));
}
