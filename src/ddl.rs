//! Planning of data definition statements (`CREATE`, `DROP`, `ALTER`) that
//! change the catalog, against a catalog held as plain data.
use vstd::prelude::*;

verus! {

/// An identifier whose case has already been normalized by the parser.
pub type Ident = String;

/// A possibly qualified name as written: `item`, `schema.item` or
/// `database.schema.item`.
#[derive(Clone, Debug)]
pub struct UnresolvedObjectName(pub Vec<Ident>);

#[derive(Clone, Copy, Debug, PartialEq, Eq, Structural)]
pub enum GlobalId {
    System(u64),
    User(u64),
}

impl GlobalId {
    pub open spec fn spec_is_system(&self) -> bool {
        self is System
    }

    pub fn is_system(&self) -> (r: bool)
        ensures
            r == self.spec_is_system(),
    {
        match self {
            GlobalId::System(_) => true,
            GlobalId::User(_) => false,
        }
    }
}

#[derive(Clone, Debug)]
pub enum DatabaseSpecifier {
    /// The schemas that exist outside any database.
    Ambient,
    Name(String),
}

#[derive(Clone, Debug)]
pub struct SchemaName {
    pub database: DatabaseSpecifier,
    pub schema: String,
}

#[derive(Clone, Debug)]
pub struct FullName {
    pub database: DatabaseSpecifier,
    pub schema: String,
    pub item: String,
}

#[derive(Clone, Copy, Debug, PartialEq, Eq, Structural)]
pub enum CatalogItemType {
    Source,
    Sink,
    View,
    Index,
    Type,
    Func,
    Table,
}

#[derive(Clone, Copy, Debug, PartialEq, Eq, Structural)]
pub enum ObjectType {
    Schema,
    Source,
    Table,
    View,
    Index,
    Sink,
    Type,
    Role,
    Object,
}

#[derive(Clone, Debug)]
pub struct CatalogDatabase {
    pub name: String,
    pub has_schemas: bool,
}

#[derive(Clone, Debug)]
pub struct CatalogSchema {
    pub name: SchemaName,
    pub has_items: bool,
}

#[derive(Clone, Debug)]
pub struct CatalogItem {
    pub id: GlobalId,
    pub name: FullName,
    pub item_type: CatalogItemType,
    /// The items that depend on this one.
    pub used_by: Vec<GlobalId>,
    /// For a type, its category; `None` for items that are not types.
    pub type_category: Option<TypeCategory>,
}

/// The category of a catalog type, as far as creating types needs it.
#[derive(Clone, Copy, Debug, PartialEq, Eq, Structural)]
pub enum TypeCategory {
    Char,
    Text,
    Other,
}

/// What the planner may ask of the catalog, as plain data. An unqualified
/// name is looked up in `default_database` and `default_schema`.
#[derive(Clone, Debug)]
pub struct Catalog {
    pub user: String,
    pub default_database: String,
    pub default_schema: String,
    pub databases: Vec<CatalogDatabase>,
    pub schemas: Vec<CatalogSchema>,
    pub items: Vec<CatalogItem>,
    pub roles: Vec<String>,
}

pub struct StatementContext {
    pub catalog: Catalog,
}

/// The shape of what a statement returns; `None` for statements that return
/// no rows.
#[derive(Clone, Copy, Debug, PartialEq, Eq, Structural)]
pub struct StatementDesc {
    pub relation_desc: Option<crate::relation::RelationType>,
}

impl StatementDesc {
    pub fn new(relation_desc: Option<crate::relation::RelationType>) -> (r: StatementDesc)
        ensures
            r.relation_desc == relation_desc,
    {
        StatementDesc { relation_desc }
    }
}

// ---------------------------------------------------------------------------
// Statements
// ---------------------------------------------------------------------------

pub struct CreateDatabaseStatement {
    pub name: Ident,
    pub if_not_exists: bool,
}

pub struct CreateSchemaStatement {
    pub name: UnresolvedObjectName,
    pub if_not_exists: bool,
}

#[derive(Clone, Copy, Debug, PartialEq, Eq, Structural)]
pub enum CreateRoleOption {
    SuperUser,
    NoSuperUser,
    Login,
    NoLogin,
}

pub struct CreateRoleStatement {
    pub name: Ident,
    pub is_user: bool,
    pub options: Vec<CreateRoleOption>,
}

pub struct DropDatabaseStatement {
    pub name: Ident,
    pub if_exists: bool,
    pub restrict: bool,
}

pub struct DropObjectsStatement {
    pub materialized: bool,
    pub object_type: ObjectType,
    pub if_exists: bool,
    pub names: Vec<UnresolvedObjectName>,
    pub cascade: bool,
}

pub struct CreateTableStatement {
    pub name: UnresolvedObjectName,
    pub if_not_exists: bool,
    pub temporary: bool,
}

pub struct CreateSourceStatement {
    pub name: UnresolvedObjectName,
    pub if_not_exists: bool,
    pub materialized: bool,
}

#[derive(Clone, Copy, Debug, PartialEq, Eq, Structural)]
pub enum IfExistsBehavior {
    Error,
    Skip,
    Replace,
}

pub struct CreateViewStatement {
    pub name: UnresolvedObjectName,
    pub if_exists: IfExistsBehavior,
    pub temporary: bool,
    pub materialized: bool,
}

pub struct CreateViewsStatement {
    pub if_exists: IfExistsBehavior,
    pub temporary: bool,
    pub materialized: bool,
}

pub struct CreateSinkStatement {
    pub name: UnresolvedObjectName,
    pub from: UnresolvedObjectName,
    pub if_not_exists: bool,
}

pub struct CreateIndexStatement {
    /// `None` for an index whose name is chosen by the system.
    pub name: Option<Ident>,
    pub on_name: UnresolvedObjectName,
    pub if_not_exists: bool,
}

#[derive(Clone, Copy, Debug, PartialEq, Eq, Structural)]
pub enum CreateTypeAs {
    List,
    /// `CREATE TYPE ... AS MAP`.
    MapType,
}

/// The value of a `WITH` option of `CREATE TYPE`.
pub enum TypeOptionValue {
    /// A named data type, with its type modifiers.
    DataType { name: UnresolvedObjectName, modifiers: Vec<i64> },
    /// Any other value.
    Other,
}

pub struct TypeOption {
    pub key: Ident,
    pub value: TypeOptionValue,
}

pub struct CreateTypeStatement {
    pub name: UnresolvedObjectName,
    pub as_type: CreateTypeAs,
    pub with_options: Vec<TypeOption>,
}

#[derive(Clone, Copy, Debug, PartialEq, Eq, Structural)]
pub enum IndexOptionName {
    LogicalCompactionWindow,
}

/// An index option with its value already parsed: the compaction window in
/// milliseconds, or `None` for `off`.
#[derive(Clone, Copy, Debug, PartialEq, Eq, Structural)]
pub enum IndexOption {
    LogicalCompactionWindow(Option<u64>),
}

pub enum AlterIndexAction {
    SetOptions(Vec<IndexOption>),
    ResetOptions(Vec<Ident>),
    Enable,
}

pub struct AlterIndexStatement {
    pub index_name: UnresolvedObjectName,
    pub if_exists: bool,
    pub action: AlterIndexAction,
}

pub struct AlterObjectRenameStatement {
    pub object_type: ObjectType,
    pub if_exists: bool,
    pub name: UnresolvedObjectName,
    pub to_item_name: Ident,
}

// ---------------------------------------------------------------------------
// Plans and errors
// ---------------------------------------------------------------------------

#[derive(Debug)]
pub enum Plan {
    CreateDatabase { name: String, if_not_exists: bool },
    CreateSchema { database_name: DatabaseSpecifier, schema_name: String, if_not_exists: bool },
    CreateRole { name: String },
    DropDatabase { name: String },
    DropSchema { name: SchemaName },
    DropRoles { names: Vec<String> },
    DropItems { items: Vec<GlobalId>, ty: ObjectType },
    AlterNoop { object_type: ObjectType },
    AlterIndexSetOptions { id: GlobalId, options: Vec<IndexOption> },
    AlterIndexResetOptions { id: GlobalId, options: Vec<IndexOptionName> },
    AlterIndexEnable { id: GlobalId },
    AlterItemRename { id: GlobalId, to_name: String, object_type: ObjectType },
    CreateType { name: FullName, inner: CustomType, depends_on: Vec<GlobalId> },
}

/// A type built from other types.
#[derive(Clone, Copy, Debug, PartialEq, Eq, Structural)]
pub enum CustomType {
    List { element_id: GlobalId },
    MapType { key_id: GlobalId, value_id: GlobalId },
}

#[derive(Debug)]
pub enum PlanError {
    /// A schema name with more than two components.
    SchemaNameTooLong,
    /// `LOGIN`/`NOLOGIN` or `SUPERUSER`/`NOSUPERUSER` given twice.
    ConflictingRoleOptions,
    /// A feature this planner does not support.
    Unsupported(String),
    UnknownDatabase(String),
    UnknownSchema,
    UnknownItem,
    UnknownRole(String),
    /// `DROP DATABASE ... RESTRICT` on a database that has schemas.
    DatabaseNotEmpty(String),
    /// `DROP MATERIALIZED ...`, which must be written `DROP ...`.
    DropMaterialized(ObjectType),
    /// The object belongs to the system.
    RequiredBySystem,
    /// `DROP SCHEMA` without `CASCADE` on a schema that holds items.
    SchemaNotEmpty,
    InvalidRoleName,
    DropCurrentUser,
    /// The named item is of another type than the statement says.
    WrongItemType(CatalogItemType),
    /// Dropping without `CASCADE` an item that others depend on.
    StillDependedUpon(GlobalId),
    /// The new name of a renamed item is taken.
    NameTaken(String),
    /// A name with no part or with more than three parts.
    InvalidName,
    /// A required `WITH` option is missing.
    MissingOption(String),
    /// An option that must name a data type names something else.
    NotADataType(String),
    /// A data type given with type modifiers where only the type may stand.
    TypeModifiers(String),
    /// The named item is not a type.
    NotAType(String),
    /// A `WITH` option that the statement does not take.
    UnexpectedOption(String),
    /// A catalog item of that name exists already.
    ItemExists,
    /// The key type of a map type must be text.
    KeyTypeNotText,
}

/// The kind of a planning error, without its details.
#[derive(Clone, Copy, Debug, PartialEq, Eq, Structural)]
pub enum PlanErrorKind {
    SchemaNameTooLong,
    ConflictingRoleOptions,
    Unsupported,
    UnknownDatabase,
    UnknownSchema,
    UnknownItem,
    UnknownRole,
    DatabaseNotEmpty,
    DropMaterialized,
    RequiredBySystem,
    SchemaNotEmpty,
    InvalidRoleName,
    DropCurrentUser,
    WrongItemType,
    StillDependedUpon,
    NameTaken,
    InvalidName,
    MissingOption,
    NotADataType,
    TypeModifiers,
    NotAType,
    UnexpectedOption,
    ItemExists,
    KeyTypeNotText,
}

pub open spec fn kind_of(e: PlanError) -> PlanErrorKind {
    match e {
        PlanError::SchemaNameTooLong => PlanErrorKind::SchemaNameTooLong,
        PlanError::ConflictingRoleOptions => PlanErrorKind::ConflictingRoleOptions,
        PlanError::Unsupported(_) => PlanErrorKind::Unsupported,
        PlanError::UnknownDatabase(_) => PlanErrorKind::UnknownDatabase,
        PlanError::UnknownSchema => PlanErrorKind::UnknownSchema,
        PlanError::UnknownItem => PlanErrorKind::UnknownItem,
        PlanError::UnknownRole(_) => PlanErrorKind::UnknownRole,
        PlanError::DatabaseNotEmpty(_) => PlanErrorKind::DatabaseNotEmpty,
        PlanError::DropMaterialized(_) => PlanErrorKind::DropMaterialized,
        PlanError::RequiredBySystem => PlanErrorKind::RequiredBySystem,
        PlanError::SchemaNotEmpty => PlanErrorKind::SchemaNotEmpty,
        PlanError::InvalidRoleName => PlanErrorKind::InvalidRoleName,
        PlanError::DropCurrentUser => PlanErrorKind::DropCurrentUser,
        PlanError::WrongItemType(_) => PlanErrorKind::WrongItemType,
        PlanError::StillDependedUpon(_) => PlanErrorKind::StillDependedUpon,
        PlanError::NameTaken(_) => PlanErrorKind::NameTaken,
        PlanError::InvalidName => PlanErrorKind::InvalidName,
        PlanError::MissingOption(_) => PlanErrorKind::MissingOption,
        PlanError::NotADataType(_) => PlanErrorKind::NotADataType,
        PlanError::TypeModifiers(_) => PlanErrorKind::TypeModifiers,
        PlanError::NotAType(_) => PlanErrorKind::NotAType,
        PlanError::UnexpectedOption(_) => PlanErrorKind::UnexpectedOption,
        PlanError::ItemExists => PlanErrorKind::ItemExists,
        PlanError::KeyTypeNotText => PlanErrorKind::KeyTypeNotText,
    }
}

// ---------------------------------------------------------------------------
// Describing statements: none of these returns rows.
// ---------------------------------------------------------------------------

pub open spec fn no_rows() -> Result<StatementDesc, PlanError> {
    Ok(StatementDesc { relation_desc: None })
}

pub fn describe_create_database(_scx: &StatementContext, _stmt: CreateDatabaseStatement) -> (r:
    Result<StatementDesc, PlanError>)
    ensures
        r == no_rows(),
{
    Ok(StatementDesc::new(None))
}

pub fn describe_create_schema(_scx: &StatementContext, _stmt: CreateSchemaStatement) -> (r: Result<
    StatementDesc,
    PlanError,
>)
    ensures
        r == no_rows(),
{
    Ok(StatementDesc::new(None))
}

pub fn describe_create_table(_scx: &StatementContext, _stmt: CreateTableStatement) -> (r: Result<
    StatementDesc,
    PlanError,
>)
    ensures
        r == no_rows(),
{
    Ok(StatementDesc::new(None))
}

pub fn describe_create_source(_scx: &StatementContext, _stmt: CreateSourceStatement) -> (r: Result<
    StatementDesc,
    PlanError,
>)
    ensures
        r == no_rows(),
{
    Ok(StatementDesc::new(None))
}

pub fn describe_create_view(_scx: &StatementContext, _stmt: CreateViewStatement) -> (r: Result<
    StatementDesc,
    PlanError,
>)
    ensures
        r == no_rows(),
{
    Ok(StatementDesc::new(None))
}

pub fn describe_create_views(_scx: &StatementContext, _stmt: CreateViewsStatement) -> (r: Result<
    StatementDesc,
    PlanError,
>)
    ensures
        r == no_rows(),
{
    Ok(StatementDesc::new(None))
}

pub fn describe_create_sink(_scx: &StatementContext, _stmt: CreateSinkStatement) -> (r: Result<
    StatementDesc,
    PlanError,
>)
    ensures
        r == no_rows(),
{
    Ok(StatementDesc::new(None))
}

pub fn describe_create_index(_scx: &StatementContext, _stmt: CreateIndexStatement) -> (r: Result<
    StatementDesc,
    PlanError,
>)
    ensures
        r == no_rows(),
{
    Ok(StatementDesc::new(None))
}

pub fn describe_create_type(_scx: &StatementContext, _stmt: CreateTypeStatement) -> (r: Result<
    StatementDesc,
    PlanError,
>)
    ensures
        r == no_rows(),
{
    Ok(StatementDesc::new(None))
}

pub fn describe_create_role(_scx: &StatementContext, _stmt: CreateRoleStatement) -> (r: Result<
    StatementDesc,
    PlanError,
>)
    ensures
        r == no_rows(),
{
    Ok(StatementDesc::new(None))
}

pub fn describe_drop_database(_scx: &StatementContext, _stmt: DropDatabaseStatement) -> (r: Result<
    StatementDesc,
    PlanError,
>)
    ensures
        r == no_rows(),
{
    Ok(StatementDesc::new(None))
}

pub fn describe_drop_objects(_scx: &StatementContext, _stmt: DropObjectsStatement) -> (r: Result<
    StatementDesc,
    PlanError,
>)
    ensures
        r == no_rows(),
{
    Ok(StatementDesc::new(None))
}

pub fn describe_alter_index_options(_scx: &StatementContext, _stmt: AlterIndexStatement) -> (r:
    Result<StatementDesc, PlanError>)
    ensures
        r == no_rows(),
{
    Ok(StatementDesc::new(None))
}

pub fn describe_alter_object_rename(_scx: &StatementContext, _stmt: AlterObjectRenameStatement) -> (r:
    Result<StatementDesc, PlanError>)
    ensures
        r == no_rows(),
{
    Ok(StatementDesc::new(None))
}


// ---------------------------------------------------------------------------
// Name resolution
// ---------------------------------------------------------------------------

pub open spec fn parts_view(n: UnresolvedObjectName) -> Seq<Seq<char>> {
    n.0@.map_values(|s: String| s@)
}

pub open spec fn is_database(d: DatabaseSpecifier, name: Seq<char>) -> bool {
    match d {
        DatabaseSpecifier::Ambient => false,
        DatabaseSpecifier::Name(n) => n@ == name,
    }
}

/// Whether the written name `parts` denotes the item named `n`.
pub open spec fn names_item(c: Catalog, parts: Seq<Seq<char>>, n: FullName) -> bool {
    if parts.len() == 1 {
        is_database(n.database, c.default_database@) && n.schema@ == c.default_schema@ && n.item@
            == parts[0]
    } else if parts.len() == 2 {
        is_database(n.database, c.default_database@) && n.schema@ == parts[0] && n.item@ == parts[1]
    } else if parts.len() == 3 {
        is_database(n.database, parts[0]) && n.schema@ == parts[1] && n.item@ == parts[2]
    } else {
        false
    }
}

/// `i` is the first catalog item that `parts` denotes.
pub open spec fn resolves_item_to(c: Catalog, parts: Seq<Seq<char>>, i: int) -> bool {
    0 <= i < c.items.len() && names_item(c, parts, c.items@[i].name) && forall|j: int|
        0 <= j < i ==> !names_item(c, parts, #[trigger] c.items@[j].name)
}

pub open spec fn item_unknown(c: Catalog, parts: Seq<Seq<char>>) -> bool {
    forall|j: int| 0 <= j < c.items.len() ==> !names_item(c, parts, #[trigger] c.items@[j].name)
}

fn same_database(d: &DatabaseSpecifier, name: &String) -> (r: bool)
    ensures
        r == is_database(*d, name@),
{
    match d {
        DatabaseSpecifier::Ambient => false,
        DatabaseSpecifier::Name(n) => *n == *name,
    }
}

fn names_item_exec(c: &Catalog, parts: &Vec<Ident>, n: &FullName) -> (r: bool)
    ensures
        r == names_item(*c, parts@.map_values(|s: String| s@), *n),
{
    if parts.len() == 1 {
        same_database(&n.database, &c.default_database) && n.schema == c.default_schema && n.item
            == parts[0]
    } else if parts.len() == 2 {
        same_database(&n.database, &c.default_database) && n.schema == parts[0] && n.item
            == parts[1]
    } else if parts.len() == 3 {
        same_database(&n.database, &parts[0]) && n.schema == parts[1] && n.item == parts[2]
    } else {
        false
    }
}

/// The position of the first catalog item the name denotes.
pub fn resolve_item(c: &Catalog, name: &UnresolvedObjectName) -> (r: Option<usize>)
    ensures
        match r {
            Some(i) => resolves_item_to(*c, parts_view(*name), i as int),
            None => item_unknown(*c, parts_view(*name)),
        },
{
    let mut i: usize = 0;
    while i < c.items.len()
        invariant
            i <= c.items.len(),
            forall|j: int| 0 <= j < i ==> !names_item(*c, parts_view(*name), #[trigger] c.items@[j].name),
        decreases c.items.len() - i,
    {
        if names_item_exec(c, &name.0, &c.items[i].name) {
            return Some(i);
        }
        i = i + 1;
    }
    None
}

/// Whether the written name `parts` denotes the schema `s`. A one-part name
/// also denotes a schema outside any database.
pub open spec fn names_schema(c: Catalog, parts: Seq<Seq<char>>, s: SchemaName) -> bool {
    if parts.len() == 1 {
        s.schema@ == parts[0] && (s.database is Ambient || is_database(
            s.database,
            c.default_database@,
        ))
    } else if parts.len() == 2 {
        is_database(s.database, parts[0]) && s.schema@ == parts[1]
    } else {
        false
    }
}

pub open spec fn resolves_schema_to(c: Catalog, parts: Seq<Seq<char>>, i: int) -> bool {
    0 <= i < c.schemas.len() && names_schema(c, parts, c.schemas@[i].name) && forall|j: int|
        0 <= j < i ==> !names_schema(c, parts, #[trigger] c.schemas@[j].name)
}

pub open spec fn schema_unknown(c: Catalog, parts: Seq<Seq<char>>) -> bool {
    forall|j: int| 0 <= j < c.schemas.len() ==> !names_schema(c, parts, #[trigger] c.schemas@[j].name)
}

fn resolve_schema(c: &Catalog, name: &UnresolvedObjectName) -> (r: Option<usize>)
    ensures
        match r {
            Some(i) => resolves_schema_to(*c, parts_view(*name), i as int),
            None => schema_unknown(*c, parts_view(*name)),
        },
{
    let parts = &name.0;
    let mut i: usize = 0;
    while i < c.schemas.len()
        invariant
            i <= c.schemas.len(),
            *parts == name.0,
            forall|j: int| 0 <= j < i ==> !names_schema(*c, parts_view(*name), #[trigger] c.schemas@[j].name),
        decreases c.schemas.len() - i,
    {
        let s = &c.schemas[i].name;
        let hit = if parts.len() == 1 {
            s.schema == parts[0] && (matches!(s.database, DatabaseSpecifier::Ambient) || same_database(
                &s.database,
                &c.default_database,
            ))
        } else if parts.len() == 2 {
            same_database(&s.database, &parts[0]) && s.schema == parts[1]
        } else {
            false
        };
        if hit {
            return Some(i);
        }
        i = i + 1;
    }
    None
}

pub open spec fn resolves_database_to(c: Catalog, name: Seq<char>, i: int) -> bool {
    0 <= i < c.databases.len() && c.databases@[i].name@ == name && forall|j: int|
        0 <= j < i ==> #[trigger] c.databases@[j].name@ != name
}

pub open spec fn database_unknown(c: Catalog, name: Seq<char>) -> bool {
    forall|j: int| 0 <= j < c.databases.len() ==> #[trigger] c.databases@[j].name@ != name
}

fn resolve_database(c: &Catalog, name: &String) -> (r: Option<usize>)
    ensures
        match r {
            Some(i) => resolves_database_to(*c, name@, i as int),
            None => database_unknown(*c, name@),
        },
{
    let mut i: usize = 0;
    while i < c.databases.len()
        invariant
            i <= c.databases.len(),
            forall|j: int| 0 <= j < i ==> #[trigger] c.databases@[j].name@ != name@,
        decreases c.databases.len() - i,
    {
        if c.databases[i].name == *name {
            return Some(i);
        }
        i = i + 1;
    }
    None
}

fn has_role(c: &Catalog, name: &String) -> (r: bool)
    ensures
        r == exists|j: int| 0 <= j < c.roles.len() && #[trigger] c.roles@[j]@ == name@,
{
    let mut i: usize = 0;
    while i < c.roles.len()
        invariant
            i <= c.roles.len(),
            forall|j: int| 0 <= j < i ==> #[trigger] c.roles@[j]@ != name@,
        decreases c.roles.len() - i,
    {
        if c.roles[i] == *name {
            return true;
        }
        i = i + 1;
    }
    false
}

// ---------------------------------------------------------------------------
// CREATE
// ---------------------------------------------------------------------------

pub fn plan_create_database(_scx: &StatementContext, stmt: CreateDatabaseStatement) -> (r: Result<
    Plan,
    PlanError,
>)
    ensures
        r matches Ok(Plan::CreateDatabase { name, if_not_exists }) && name@ == stmt.name@
            && if_not_exists == stmt.if_not_exists,
{
    let CreateDatabaseStatement { name, if_not_exists } = stmt;
    Ok(Plan::CreateDatabase { name, if_not_exists })
}

/// A schema name has one or two components: `schema` in the default
/// database, or `database.schema`.
pub fn plan_create_schema(scx: &StatementContext, stmt: CreateSchemaStatement) -> (r: Result<
    Plan,
    PlanError,
>)
    requires
        stmt.name.0.len() >= 1,
    ensures
        stmt.name.0.len() > 2 <==> r matches Err(PlanError::SchemaNameTooLong),
        stmt.name.0.len() <= 2 ==> (r matches Ok(
            Plan::CreateSchema { database_name, schema_name, if_not_exists },
        ) && schema_name@ == stmt.name.0@.last()@ && if_not_exists == stmt.if_not_exists
            && is_database(
            database_name,
            if stmt.name.0.len() == 2 {
                stmt.name.0@[0]@
            } else {
                scx.catalog.default_database@
            },
        )),
{
    let CreateSchemaStatement { name, if_not_exists } = stmt;
    let mut parts = name.0;
    if parts.len() > 2 {
        return Err(PlanError::SchemaNameTooLong);
    }
    let schema_name = parts.pop().unwrap();
    let database_name = match parts.pop() {
        None => DatabaseSpecifier::Name(scx.catalog.default_database.clone()),
        Some(n) => DatabaseSpecifier::Name(n),
    };
    Ok(Plan::CreateSchema { database_name, schema_name, if_not_exists })
}

pub open spec fn is_login_option(o: CreateRoleOption) -> bool {
    o == CreateRoleOption::Login || o == CreateRoleOption::NoLogin
}

/// How many of the options set LOGIN (when `login`) or SUPERUSER (otherwise).
pub open spec fn count_options(opts: Seq<CreateRoleOption>, login: bool) -> nat
    decreases opts.len(),
{
    if opts.len() == 0 {
        0
    } else {
        count_options(opts.drop_last(), login) + if is_login_option(opts.last()) == login {
            1nat
        } else {
            0nat
        }
    }
}

proof fn lemma_count_options_prefix(opts: Seq<CreateRoleOption>, login: bool, i: int)
    requires
        0 <= i <= opts.len(),
    ensures
        count_options(opts.take(i), login) <= count_options(opts, login),
    decreases opts.len() - i,
{
    if i < opts.len() {
        assert(opts.take(i + 1).drop_last() =~= opts.take(i));
        lemma_count_options_prefix(opts, login, i + 1);
    } else {
        assert(opts.take(i) =~= opts);
    }
}

/// Options may set LOGIN and SUPERUSER once each. Only users that can log in
/// and are superusers are supported; a user (unlike a role) logs in unless
/// told otherwise.
pub fn plan_create_role(_scx: &StatementContext, stmt: CreateRoleStatement) -> (r: Result<
    Plan,
    PlanError,
>)
    ensures
        ({
            let opts = stmt.options@;
            let conflict = count_options(opts, true) > 1 || count_options(opts, false) > 1;
            let login = opts.contains(CreateRoleOption::Login) || (stmt.is_user && !opts.contains(
                CreateRoleOption::NoLogin,
            ));
            let superuser = opts.contains(CreateRoleOption::SuperUser);
            &&& conflict <==> (r is Err && r->Err_0 is ConflictingRoleOptions)
            &&& (!conflict && !login) ==> (r is Err && r->Err_0 is Unsupported)
            &&& (!conflict && login && !superuser) ==> (r is Err && r->Err_0 is Unsupported)
            &&& (!conflict && login && superuser) ==> (r is Ok && r->Ok_0 is CreateRole
                && r->Ok_0->CreateRole_name@ == stmt.name@)
        }),
{
    let CreateRoleStatement { name, is_user, options } = stmt;
    let ghost opts = options@;
    let mut login: Option<bool> = None;
    let mut super_user: Option<bool> = None;
    let mut i: usize = 0;
    assert(opts.take(0) =~= Seq::<CreateRoleOption>::empty());
    while i < options.len()
        invariant
            i <= options.len(),
            opts == options@,
            opts == stmt.options@,
            is_user == stmt.is_user,
            name == stmt.name,
            count_options(opts.take(i as int), true) <= 1,
            count_options(opts.take(i as int), false) <= 1,
            login is Some <==> count_options(opts.take(i as int), true) == 1,
            super_user is Some <==> count_options(opts.take(i as int), false) == 1,
            login == Some(true) <==> opts.take(i as int).contains(CreateRoleOption::Login),
            login == Some(false) <==> opts.take(i as int).contains(CreateRoleOption::NoLogin),
            super_user == Some(true) <==> opts.take(i as int).contains(CreateRoleOption::SuperUser),
        decreases options.len() - i,
    {
        let o = options[i];
        let ghost t = opts.take(i as int);
        let ghost t1 = opts.take(i + 1);
        assert(t1.drop_last() =~= t);
        assert(t1 =~= t.push(o));
        assert(forall|x: CreateRoleOption| t1.contains(x) <==> (t.contains(x) || x == o)) by {
            assert forall|x: CreateRoleOption| t1.contains(x) implies (t.contains(x) || x == o) by {
                if t1.contains(x) {
                    let k = choose|k: int| 0 <= k < t1.len() && t1[k] == x;
                    if k < t.len() {
                        assert(t[k] == x);
                    }
                }
            }
            assert forall|x: CreateRoleOption| (t.contains(x) || x == o) implies t1.contains(x) by {
                if x == o {
                    assert(t1[i as int] == x);
                } else {
                    let k = choose|k: int| 0 <= k < t.len() && t[k] == x;
                    assert(t1[k] == x);
                }
            }
        }
        match o {
            CreateRoleOption::Login | CreateRoleOption::NoLogin => {
                if login.is_some() {
                    proof {
                        assert(t1.last() == o);
                        assert(count_options(t1, true) == count_options(t, true) + 1);
                        lemma_count_options_prefix(opts, true, i + 1);
                    }
                    return Err(PlanError::ConflictingRoleOptions);
                }
                login = Some(o == CreateRoleOption::Login);
            },
            CreateRoleOption::SuperUser | CreateRoleOption::NoSuperUser => {
                if super_user.is_some() {
                    proof {
                        assert(t1.last() == o);
                        assert(count_options(t1, false) == count_options(t, false) + 1);
                        lemma_count_options_prefix(opts, false, i + 1);
                    }
                    return Err(PlanError::ConflictingRoleOptions);
                }
                super_user = Some(o == CreateRoleOption::SuperUser);
            },
        }
        i = i + 1;
    }
    assert(opts.take(i as int) =~= opts);
    assert(login == Some(true) <==> opts.contains(CreateRoleOption::Login));
    assert(login == Some(false) <==> opts.contains(CreateRoleOption::NoLogin));
    assert(super_user == Some(true) <==> opts.contains(CreateRoleOption::SuperUser));
    let ghost login0 = login;
    if is_user && login.is_none() {
        login = Some(true);
    }
    if login != Some(true) {
        assert(!opts.contains(CreateRoleOption::Login));
        assert(is_user ==> login0 == Some(false));
        assert(login0 == Some(false) ==> opts.contains(CreateRoleOption::NoLogin));
        return Err(PlanError::Unsupported("non-login users".to_owned()));
    }
    if super_user != Some(true) {
        return Err(PlanError::Unsupported("non-superusers".to_owned()));
    }
    Ok(Plan::CreateRole { name })
}


// ---------------------------------------------------------------------------
// DROP
// ---------------------------------------------------------------------------

/// Catalog items have distinct ids, and every dependent an item lists is
/// itself in the catalog.
pub open spec fn catalog_wf(c: Catalog) -> bool {
    &&& forall|j: int, k: int|
        0 <= j < c.items.len() && 0 <= k < c.items.len() && #[trigger] c.items@[j].id
            == #[trigger] c.items@[k].id ==> j == k
    &&& forall|j: int, u: int|
        0 <= j < c.items.len() && 0 <= u < c.items@[j].used_by.len() ==> exists|k: int|
            0 <= k < c.items.len() && #[trigger] c.items@[k].id == #[trigger] c.items@[j].used_by@[u]
}

pub open spec fn has_id(c: Catalog, id: GlobalId) -> bool {
    exists|k: int| 0 <= k < c.items.len() && #[trigger] c.items@[k].id == id
}

/// The type of the catalog item with this id.
pub open spec fn type_of_id(c: Catalog, id: GlobalId) -> CatalogItemType {
    c.items@[choose|k: int| 0 <= k < c.items.len() && #[trigger] c.items@[k].id == id].item_type
}

pub open spec fn item_type_of(ot: ObjectType) -> Option<CatalogItemType> {
    match ot {
        ObjectType::Source => Some(CatalogItemType::Source),
        ObjectType::Table => Some(CatalogItemType::Table),
        ObjectType::View => Some(CatalogItemType::View),
        ObjectType::Index => Some(CatalogItemType::Index),
        ObjectType::Sink => Some(CatalogItemType::Sink),
        ObjectType::Type => Some(CatalogItemType::Type),
        _ => None,
    }
}

fn object_is_item_type(ot: ObjectType, it: CatalogItemType) -> (r: bool)
    ensures
        r == (item_type_of(ot) == Some(it)),
{
    match ot {
        ObjectType::Source => it == CatalogItemType::Source,
        ObjectType::Table => it == CatalogItemType::Table,
        ObjectType::View => it == CatalogItemType::View,
        ObjectType::Index => it == CatalogItemType::Index,
        ObjectType::Sink => it == CatalogItemType::Sink,
        ObjectType::Type => it == CatalogItemType::Type,
        _ => false,
    }
}

/// A dependent keeps an item from being dropped without `CASCADE`, unless
/// it is an index on something other than a type.
pub open spec fn blocks_drop(c: Catalog, ot: ObjectType, dep: GlobalId) -> bool {
    ot == ObjectType::Type || type_of_id(c, dep) != CatalogItemType::Index
}

/// Whether the item can be dropped as an object of type `ot`, and if not, why.
pub open spec fn drop_item_verdict(c: Catalog, ot: ObjectType, e: CatalogItem, cascade: bool) -> Result<
    GlobalId,
    PlanErrorKind,
> {
    if e.id.spec_is_system() {
        Err(PlanErrorKind::RequiredBySystem)
    } else if item_type_of(ot) != Some(e.item_type) {
        Err(PlanErrorKind::WrongItemType)
    } else if !cascade && exists|u: int|
        0 <= u < e.used_by.len() && blocks_drop(c, ot, #[trigger] e.used_by@[u]) {
        Err(PlanErrorKind::StillDependedUpon)
    } else {
        Ok(e.id)
    }
}

fn find_id(c: &Catalog, id: GlobalId) -> (r: usize)
    requires
        catalog_wf(*c),
        has_id(*c, id),
    ensures
        r < c.items.len(),
        c.items@[r as int].id == id,
        c.items@[r as int].item_type == type_of_id(*c, id),
{
    let mut k: usize = 0;
    while k < c.items.len()
        invariant
            k <= c.items.len(),
            catalog_wf(*c),
            has_id(*c, id),
            forall|j: int| 0 <= j < k ==> #[trigger] c.items@[j].id != id,
        decreases c.items.len() - k,
    {
        if c.items[k].id == id {
            proof {
                let k1 = choose|k1: int| 0 <= k1 < c.items.len() && #[trigger] c.items@[k1].id == id;
                assert(c.items@[k1].id == c.items@[k as int].id);
            }
            return k;
        }
        k = k + 1;
    }
    proof {
        let k1 = choose|k1: int| 0 <= k1 < c.items.len() && #[trigger] c.items@[k1].id == id;
        assert(c.items@[k1].id == id);
    }
    0
}

/// Checks that a resolved item may be dropped as an object of type
/// `object_type`, and returns its id.
pub fn plan_drop_item(
    scx: &StatementContext,
    object_type: ObjectType,
    catalog_entry: &CatalogItem,
    cascade: bool,
) -> (r: Result<Option<GlobalId>, PlanError>)
    requires
        catalog_wf(scx.catalog),
        forall|u: int|
            0 <= u < catalog_entry.used_by.len() ==> has_id(
                scx.catalog,
                #[trigger] catalog_entry.used_by@[u],
            ),
    ensures
        match drop_item_verdict(scx.catalog, object_type, *catalog_entry, cascade) {
            Ok(id) => r == Ok::<Option<GlobalId>, PlanError>(Some(id)),
            Err(k) => r is Err && kind_of(r->Err_0) == k,
        },
{
    let c = &scx.catalog;
    if catalog_entry.id.is_system() {
        return Err(PlanError::RequiredBySystem);
    }
    if !object_is_item_type(object_type, catalog_entry.item_type) {
        return Err(PlanError::WrongItemType(catalog_entry.item_type));
    }
    if !cascade {
        let mut u: usize = 0;
        while u < catalog_entry.used_by.len()
            invariant
                u <= catalog_entry.used_by.len(),
                !cascade,
                !catalog_entry.id.spec_is_system(),
                item_type_of(object_type) == Some(catalog_entry.item_type),
                catalog_wf(*c),
                *c == scx.catalog,
                forall|u: int|
                    0 <= u < catalog_entry.used_by.len() ==> has_id(
                        *c,
                        #[trigger] catalog_entry.used_by@[u],
                    ),
                forall|v: int| 0 <= v < u ==> !blocks_drop(*c, object_type, #[trigger] catalog_entry.used_by@[v]),
            decreases catalog_entry.used_by.len() - u,
        {
            let dep = catalog_entry.used_by[u];
            assert(has_id(*c, catalog_entry.used_by@[u as int]));
            let k = find_id(c, dep);
            if object_type == ObjectType::Type || c.items[k].item_type != CatalogItemType::Index {
                assert(blocks_drop(*c, object_type, catalog_entry.used_by@[u as int]));
                return Err(PlanError::StillDependedUpon(dep));
            }
            u = u + 1;
        }
    }
    Ok(Some(catalog_entry.id))
}

/// The outcome of dropping the named items, one after the other: the ids
/// to drop, or the first failure. Names that denote nothing are skipped
/// with `IF EXISTS`.
pub open spec fn drop_items_outcome(
    c: Catalog,
    ot: ObjectType,
    if_exists: bool,
    names: Seq<UnresolvedObjectName>,
    cascade: bool,
) -> Result<Seq<GlobalId>, PlanErrorKind>
    decreases names.len(),
{
    if names.len() == 0 {
        Ok(Seq::empty())
    } else {
        match drop_items_outcome(c, ot, if_exists, names.drop_last(), cascade) {
            Err(k) => Err(k),
            Ok(ids) => {
                let parts = parts_view(names.last());
                if item_unknown(c, parts) {
                    if if_exists {
                        Ok(ids)
                    } else {
                        Err(PlanErrorKind::UnknownItem)
                    }
                } else {
                    let i = choose|i: int| resolves_item_to(c, parts, i);
                    match drop_item_verdict(c, ot, c.items@[i], cascade) {
                        Ok(id) => Ok(ids.push(id)),
                        Err(k) => Err(k),
                    }
                }
            },
        }
    }
}

pub open spec fn drop_items_result(
    c: Catalog,
    ot: ObjectType,
    if_exists: bool,
    names: Seq<UnresolvedObjectName>,
    cascade: bool,
    r: Result<Plan, PlanError>,
) -> bool {
    match drop_items_outcome(c, ot, if_exists, names, cascade) {
        Ok(ids) => r is Ok && r->Ok_0 is DropItems && r->Ok_0->DropItems_items@ == ids
            && r->Ok_0->DropItems_ty == ot,
        Err(k) => r is Err && kind_of(r->Err_0) == k,
    }
}

proof fn lemma_resolves_unique(c: Catalog, parts: Seq<Seq<char>>, i: int, j: int)
    requires
        resolves_item_to(c, parts, i),
        resolves_item_to(c, parts, j),
    ensures
        i == j,
{
    if i < j {
        assert(!names_item(c, parts, c.items@[i].name));
    } else if j < i {
        assert(!names_item(c, parts, c.items@[j].name));
    }
}

proof fn lemma_drop_items_err(
    c: Catalog,
    ot: ObjectType,
    if_exists: bool,
    names: Seq<UnresolvedObjectName>,
    cascade: bool,
    i: int,
)
    requires
        0 <= i <= names.len(),
        drop_items_outcome(c, ot, if_exists, names.take(i), cascade) is Err,
    ensures
        drop_items_outcome(c, ot, if_exists, names, cascade) == drop_items_outcome(
            c,
            ot,
            if_exists,
            names.take(i),
            cascade,
        ),
    decreases names.len() - i,
{
    if i < names.len() {
        assert(names.take(i + 1).drop_last() =~= names.take(i));
        lemma_drop_items_err(c, ot, if_exists, names, cascade, i + 1);
    } else {
        assert(names.take(i) =~= names);
    }
}

pub fn plan_drop_items(
    scx: &StatementContext,
    object_type: ObjectType,
    if_exists: bool,
    names: Vec<UnresolvedObjectName>,
    cascade: bool,
) -> (r: Result<Plan, PlanError>)
    requires
        catalog_wf(scx.catalog),
    ensures
        drop_items_result(scx.catalog, object_type, if_exists, names@, cascade, r),
{
    let c = &scx.catalog;
    let mut ids: Vec<GlobalId> = Vec::new();
    let mut i: usize = 0;
    assert(names@.take(0) =~= Seq::<UnresolvedObjectName>::empty());
    while i < names.len()
        invariant
            i <= names.len(),
            *c == scx.catalog,
            catalog_wf(*c),
            drop_items_outcome(*c, object_type, if_exists, names@.take(i as int), cascade) == Ok::<
                Seq<GlobalId>,
                PlanErrorKind,
            >(ids@),
        decreases names.len() - i,
    {
        assert(names@.take(i + 1).drop_last() =~= names@.take(i as int));
        assert(names@.take(i + 1).last() == names@[i as int]);
        match resolve_item(c, &names[i]) {
            Some(k) => {
                proof {
                    let parts = parts_view(names@[i as int]);
                    let k1 = choose|k1: int| resolves_item_to(*c, parts, k1);
                    lemma_resolves_unique(*c, parts, k as int, k1);
                    assert forall|u: int| 0 <= u < c.items@[k as int].used_by.len() implies has_id(
                        *c,
                        #[trigger] c.items@[k as int].used_by@[u],
                    ) by {
                        let w = choose|w: int|
                            0 <= w < c.items.len() && #[trigger] c.items@[w].id
                                == #[trigger] c.items@[k as int].used_by@[u];
                    }
                }
                match plan_drop_item(scx, object_type, &c.items[k], cascade) {
                    Ok(Some(id)) => ids.push(id),
                    Ok(None) => {},
                    Err(e) => {
                        proof {
                            lemma_drop_items_err(*c, object_type, if_exists, names@, cascade, i + 1);
                        }
                        return Err(e);
                    },
                }
            },
            None => {
                if !if_exists {
                    proof {
                        lemma_drop_items_err(*c, object_type, if_exists, names@, cascade, i + 1);
                    }
                    return Err(PlanError::UnknownItem);
                }
            },
        }
        i = i + 1;
    }
    assert(names@.take(i as int) =~= names@);
    Ok(Plan::DropItems { items: ids, ty: object_type })
}


pub fn plan_drop_database(scx: &StatementContext, stmt: DropDatabaseStatement) -> (r: Result<
    Plan,
    PlanError,
>)
    ensures
        forall|i: int|
            resolves_database_to(scx.catalog, stmt.name@, i) ==> if stmt.restrict
                && scx.catalog.databases@[i].has_schemas {
                r is Err && r->Err_0 is DatabaseNotEmpty
            } else {
                r is Ok && r->Ok_0 is DropDatabase && r->Ok_0->DropDatabase_name@ == stmt.name@
            },
        database_unknown(scx.catalog, stmt.name@) ==> if stmt.if_exists {
            r is Ok && r->Ok_0 is DropDatabase && r->Ok_0->DropDatabase_name@ == Seq::<
                char,
            >::empty()
        } else {
            r is Err && r->Err_0 is UnknownDatabase
        },
{
    let DropDatabaseStatement { name, if_exists, restrict } = stmt;
    match resolve_database(&scx.catalog, &name) {
        Some(i) => {
            if restrict && scx.catalog.databases[i].has_schemas {
                return Err(PlanError::DatabaseNotEmpty(name));
            }
            Ok(Plan::DropDatabase { name: scx.catalog.databases[i].name.clone() })
        },
        None => {
            if if_exists {
                Ok(Plan::DropDatabase { name: String::new() })
            } else {
                Err(PlanError::UnknownDatabase(name))
            }
        },
    }
}

pub open spec fn same_database_spec(a: DatabaseSpecifier, b: DatabaseSpecifier) -> bool {
    match (a, b) {
        (DatabaseSpecifier::Ambient, DatabaseSpecifier::Ambient) => true,
        (DatabaseSpecifier::Name(x), DatabaseSpecifier::Name(y)) => x@ == y@,
        _ => false,
    }
}

/// What dropping the named schema gives: only one schema can be dropped at
/// a time, a schema outside any database belongs to the system, and a schema
/// that holds items needs `CASCADE`.
pub open spec fn drop_schema_result(
    c: Catalog,
    if_exists: bool,
    names: Seq<UnresolvedObjectName>,
    cascade: bool,
    r: Result<Plan, PlanError>,
) -> bool {
    if names.len() != 1 {
        r is Err && r->Err_0 is Unsupported
    } else {
        let parts = parts_view(names[0]);
        &&& forall|i: int|
            resolves_schema_to(c, parts, i) ==> {
                let s = c.schemas@[i];
                if s.name.database is Ambient {
                    r is Err && r->Err_0 is RequiredBySystem
                } else if !cascade && s.has_items {
                    r is Err && r->Err_0 is SchemaNotEmpty
                } else {
                    r is Ok && r->Ok_0 is DropSchema && same_database_spec(
                        r->Ok_0->DropSchema_name.database,
                        s.name.database,
                    ) && r->Ok_0->DropSchema_name.schema@ == s.name.schema@
                }
            }
        &&& schema_unknown(c, parts) ==> if if_exists {
            r is Ok && r->Ok_0 is DropSchema && r->Ok_0->DropSchema_name.database is Ambient
                && r->Ok_0->DropSchema_name.schema@ == "noexist"@
        } else {
            r is Err && r->Err_0 is UnknownSchema
        }
    }
}

fn copy_database(d: &DatabaseSpecifier) -> (r: DatabaseSpecifier)
    ensures
        same_database_spec(r, *d),
{
    match d {
        DatabaseSpecifier::Ambient => DatabaseSpecifier::Ambient,
        DatabaseSpecifier::Name(n) => DatabaseSpecifier::Name(n.clone()),
    }
}

pub fn plan_drop_schema(
    scx: &StatementContext,
    if_exists: bool,
    names: Vec<UnresolvedObjectName>,
    cascade: bool,
) -> (r: Result<Plan, PlanError>)
    ensures
        drop_schema_result(scx.catalog, if_exists, names@, cascade, r),
{
    if names.len() != 1 {
        return Err(PlanError::Unsupported("DROP SCHEMA with multiple schemas".to_owned()));
    }
    match resolve_schema(&scx.catalog, &names[0]) {
        Some(i) => {
            let schema = &scx.catalog.schemas[i];
            proof {
                assert forall|j: int| resolves_schema_to(scx.catalog, parts_view(names@[0]), j) implies j == i by {
                    if j < i {
                        assert(!names_schema(scx.catalog, parts_view(names@[0]), scx.catalog.schemas@[j].name));
                    } else if i < j {
                        assert(!names_schema(scx.catalog, parts_view(names@[0]), scx.catalog.schemas@[i as int].name));
                    }
                }
            }
            if let DatabaseSpecifier::Ambient = schema.name.database {
                return Err(PlanError::RequiredBySystem);
            }
            if !cascade && schema.has_items {
                return Err(PlanError::SchemaNotEmpty);
            }
            Ok(Plan::DropSchema {
                name: SchemaName {
                    database: copy_database(&schema.name.database),
                    schema: schema.name.schema.clone(),
                },
            })
        },
        None => {
            if if_exists {
                let schema = "noexist".to_owned();
                proof {
                    reveal_strlit("noexist");
                }
                Ok(Plan::DropSchema { name: SchemaName { database: DatabaseSpecifier::Ambient, schema } })
            } else {
                Err(PlanError::UnknownSchema)
            }
        },
    }
}

/// Whether one written role name is dropped (`Ok(true)`), skipped under
/// `IF EXISTS` (`Ok(false)`), or refused.
pub open spec fn drop_role_verdict(c: Catalog, if_exists: bool, n: UnresolvedObjectName) -> Result<
    bool,
    PlanErrorKind,
> {
    if n.0.len() != 1 {
        Err(PlanErrorKind::InvalidRoleName)
    } else if n.0@[0]@ == c.user@ {
        Err(PlanErrorKind::DropCurrentUser)
    } else if exists|j: int| 0 <= j < c.roles.len() && #[trigger] c.roles@[j]@ == n.0@[0]@ {
        Ok(true)
    } else if if_exists {
        Ok(false)
    } else {
        Err(PlanErrorKind::UnknownRole)
    }
}

/// The roles to drop, in order, or the first failure.
pub open spec fn drop_roles_outcome(c: Catalog, if_exists: bool, names: Seq<UnresolvedObjectName>) -> Result<
    Seq<Seq<char>>,
    PlanErrorKind,
>
    decreases names.len(),
{
    if names.len() == 0 {
        Ok(Seq::empty())
    } else {
        match drop_roles_outcome(c, if_exists, names.drop_last()) {
            Err(k) => Err(k),
            Ok(out) => match drop_role_verdict(c, if_exists, names.last()) {
                Ok(keep) => if keep {
                    Ok(out.push(names.last().0@[0]@))
                } else {
                    Ok(out)
                },
                Err(k) => Err(k),
            },
        }
    }
}

pub open spec fn drop_roles_result(
    c: Catalog,
    if_exists: bool,
    names: Seq<UnresolvedObjectName>,
    r: Result<Plan, PlanError>,
) -> bool {
    match drop_roles_outcome(c, if_exists, names) {
        Ok(out) => r is Ok && r->Ok_0 is DropRoles && r->Ok_0->DropRoles_names@.map_values(
            |s: String| s@,
        ) == out,
        Err(k) => r is Err && kind_of(r->Err_0) == k,
    }
}

proof fn lemma_drop_roles_err(c: Catalog, if_exists: bool, names: Seq<UnresolvedObjectName>, i: int)
    requires
        0 <= i <= names.len(),
        drop_roles_outcome(c, if_exists, names.take(i)) is Err,
    ensures
        drop_roles_outcome(c, if_exists, names) == drop_roles_outcome(c, if_exists, names.take(i)),
    decreases names.len() - i,
{
    if i < names.len() {
        assert(names.take(i + 1).drop_last() =~= names.take(i));
        lemma_drop_roles_err(c, if_exists, names, i + 1);
    } else {
        assert(names.take(i) =~= names);
    }
}

pub fn plan_drop_role(scx: &StatementContext, if_exists: bool, names: Vec<UnresolvedObjectName>) -> (r:
    Result<Plan, PlanError>)
    ensures
        drop_roles_result(scx.catalog, if_exists, names@, r),
{
    let c = &scx.catalog;
    let mut out: Vec<String> = Vec::new();
    let mut i: usize = 0;
    assert(names@.take(0) =~= Seq::<UnresolvedObjectName>::empty());
    assert(out@.map_values(|s: String| s@) =~= Seq::<Seq<char>>::empty());
    while i < names.len()
        invariant
            i <= names.len(),
            *c == scx.catalog,
            drop_roles_outcome(*c, if_exists, names@.take(i as int)) == Ok::<
                Seq<Seq<char>>,
                PlanErrorKind,
            >(out@.map_values(|s: String| s@)),
        decreases names.len() - i,
    {
        assert(names@.take(i + 1).drop_last() =~= names@.take(i as int));
        assert(names@.take(i + 1).last() == names@[i as int]);
        let parts = &names[i].0;
        if parts.len() != 1 {
            proof {
                lemma_drop_roles_err(*c, if_exists, names@, i + 1);
            }
            return Err(PlanError::InvalidRoleName);
        }
        let name = parts[0].clone();
        if name == c.user {
            proof {
                lemma_drop_roles_err(*c, if_exists, names@, i + 1);
            }
            return Err(PlanError::DropCurrentUser);
        }
        if has_role(c, &name) {
            let ghost before = out@;
            out.push(name);
            assert(out@.map_values(|s: String| s@) =~= before.map_values(|s: String| s@).push(
                names@[i as int].0@[0]@,
            ));
        } else if !if_exists {
            proof {
                lemma_drop_roles_err(*c, if_exists, names@, i + 1);
            }
            return Err(PlanError::UnknownRole(name));
        }
        i = i + 1;
    }
    assert(names@.take(i as int) =~= names@);
    Ok(Plan::DropRoles { names: out })
}

pub open spec fn is_item_object(ot: ObjectType) -> bool {
    item_type_of(ot) is Some
}

/// `DROP [MATERIALIZED] <type> ...`: schemas, roles and catalog items each
/// have their own rules. `MATERIALIZED` is refused.
pub fn plan_drop_objects(scx: &StatementContext, stmt: DropObjectsStatement) -> (r: Result<
    Plan,
    PlanError,
>)
    requires
        catalog_wf(scx.catalog),
        stmt.object_type != ObjectType::Object,
    ensures
        stmt.materialized ==> r is Err && r->Err_0 is DropMaterialized,
        !stmt.materialized && stmt.object_type == ObjectType::Schema ==> drop_schema_result(
            scx.catalog,
            stmt.if_exists,
            stmt.names@,
            stmt.cascade,
            r,
        ),
        !stmt.materialized && stmt.object_type == ObjectType::Role ==> drop_roles_result(
            scx.catalog,
            stmt.if_exists,
            stmt.names@,
            r,
        ),
        !stmt.materialized && is_item_object(stmt.object_type) ==> drop_items_result(
            scx.catalog,
            stmt.object_type,
            stmt.if_exists,
            stmt.names@,
            stmt.cascade,
            r,
        ),
{
    let DropObjectsStatement { materialized, object_type, if_exists, names, cascade } = stmt;
    if materialized {
        return Err(PlanError::DropMaterialized(object_type));
    }
    match object_type {
        ObjectType::Schema => plan_drop_schema(scx, if_exists, names, cascade),
        ObjectType::Role => plan_drop_role(scx, if_exists, names),
        _ => plan_drop_items(scx, object_type, if_exists, names, cascade),
    }
}


// ---------------------------------------------------------------------------
// ALTER
// ---------------------------------------------------------------------------

/// How many of the names are `logical_compaction_window`, the one index
/// option that can be reset; other names are ignored.
pub open spec fn count_known_options(names: Seq<String>) -> nat
    decreases names.len(),
{
    if names.len() == 0 {
        0
    } else {
        count_known_options(names.drop_last()) + if names.last()@ == "logical_compaction_window"@ {
            1nat
        } else {
            0nat
        }
    }
}

/// The result of altering an index that the name denotes, by the action.
pub open spec fn alter_index_result(id: GlobalId, action: AlterIndexAction, r: Result<Plan, PlanError>) -> bool {
    match action {
        AlterIndexAction::ResetOptions(names) => r is Ok && r->Ok_0 is AlterIndexResetOptions
            && r->Ok_0->AlterIndexResetOptions_id == id
            && r->Ok_0->AlterIndexResetOptions_options@ == Seq::new(
            count_known_options(names@),
            |k: int| IndexOptionName::LogicalCompactionWindow,
        ),
        AlterIndexAction::SetOptions(opts) => r is Ok && r->Ok_0 is AlterIndexSetOptions
            && r->Ok_0->AlterIndexSetOptions_id == id && r->Ok_0->AlterIndexSetOptions_options@
            == opts@,
        AlterIndexAction::Enable => r is Ok && r->Ok_0 is AlterIndexEnable
            && r->Ok_0->AlterIndexEnable_id == id,
    }
}

pub fn plan_alter_index_options(scx: &StatementContext, stmt: AlterIndexStatement) -> (r: Result<
    Plan,
    PlanError,
>)
    ensures
        ({
            let c = scx.catalog;
            let parts = parts_view(stmt.index_name);
            &&& item_unknown(c, parts) ==> if stmt.if_exists {
                r is Ok && r->Ok_0 is AlterNoop && r->Ok_0->AlterNoop_object_type == ObjectType::Index
            } else {
                r is Err && r->Err_0 is UnknownItem
            }
            &&& forall|i: int|
                resolves_item_to(c, parts, i) ==> if c.items@[i].item_type != CatalogItemType::Index {
                    r is Err && r->Err_0 is WrongItemType
                } else {
                    alter_index_result(c.items@[i].id, stmt.action, r)
                }
        }),
{
    let c = &scx.catalog;
    let AlterIndexStatement { index_name, if_exists, action } = stmt;
    let k = match resolve_item(c, &index_name) {
        Some(k) => k,
        None => {
            if if_exists {
                return Ok(Plan::AlterNoop { object_type: ObjectType::Index });
            }
            return Err(PlanError::UnknownItem);
        },
    };
    proof {
        let parts = parts_view(index_name);
        assert forall|j: int| resolves_item_to(*c, parts, j) implies j == k by {
            lemma_resolves_unique(*c, parts, j, k as int);
        }
    }
    let entry = &c.items[k];
    if entry.item_type != CatalogItemType::Index {
        return Err(PlanError::WrongItemType(entry.item_type));
    }
    let id = entry.id;
    match action {
        AlterIndexAction::ResetOptions(names) => {
            let known = "logical_compaction_window".to_owned();
            let mut options: Vec<IndexOptionName> = Vec::new();
            let mut i: usize = 0;
            assert(names@.take(0) =~= Seq::<String>::empty());
            while i < names.len()
                invariant
                    i <= names.len(),
                    known@ == "logical_compaction_window"@,
                    options@ == Seq::new(
                        count_known_options(names@.take(i as int)),
                        |k: int| IndexOptionName::LogicalCompactionWindow,
                    ),
                decreases names.len() - i,
            {
                assert(names@.take(i + 1).drop_last() =~= names@.take(i as int));
                assert(names@.take(i + 1).last() == names@[i as int]);
                if names[i] == known {
                    options.push(IndexOptionName::LogicalCompactionWindow);
                }
                i = i + 1;
                assert(options@ =~= Seq::new(
                    count_known_options(names@.take(i as int)),
                    |k: int| IndexOptionName::LogicalCompactionWindow,
                ));
            }
            assert(names@.take(i as int) =~= names@);
            Ok(Plan::AlterIndexResetOptions { id, options })
        },
        AlterIndexAction::SetOptions(options) => Ok(Plan::AlterIndexSetOptions { id, options }),
        AlterIndexAction::Enable => Ok(Plan::AlterIndexEnable { id }),
    }
}

/// `ALTER <type> name RENAME TO new`: the item must be of the stated type,
/// and the new name, in the same schema, must be free.
pub fn plan_alter_object_rename(scx: &StatementContext, stmt: AlterObjectRenameStatement) -> (r:
    Result<Plan, PlanError>)
    ensures
        ({
            let c = scx.catalog;
            let parts = parts_view(stmt.name);
            let proposed = parts.update(parts.len() - 1, stmt.to_item_name@);
            &&& item_unknown(c, parts) ==> if stmt.if_exists {
                r is Ok && r->Ok_0 is AlterNoop && r->Ok_0->AlterNoop_object_type == stmt.object_type
            } else {
                r is Err && r->Err_0 is UnknownItem
            }
            &&& forall|i: int|
                resolves_item_to(c, parts, i) ==> if item_type_of(stmt.object_type) != Some(
                    c.items@[i].item_type,
                ) {
                    r is Err && r->Err_0 is WrongItemType
                } else if !item_unknown(c, proposed) {
                    r is Err && r->Err_0 is NameTaken
                } else {
                    r is Ok && r->Ok_0 is AlterItemRename && r->Ok_0->AlterItemRename_id
                        == c.items@[i].id && r->Ok_0->AlterItemRename_to_name@
                        == stmt.to_item_name@ && r->Ok_0->AlterItemRename_object_type
                        == stmt.object_type
                }
        }),
{
    let c = &scx.catalog;
    let AlterObjectRenameStatement { object_type, if_exists, name, to_item_name } = stmt;
    let ghost parts = parts_view(name);
    let k = match resolve_item(c, &name) {
        Some(k) => k,
        None => {
            if if_exists {
                return Ok(Plan::AlterNoop { object_type });
            }
            return Err(PlanError::UnknownItem);
        },
    };
    proof {
        assert forall|j: int| resolves_item_to(*c, parts, j) implies j == k by {
            lemma_resolves_unique(*c, parts, j, k as int);
        }
        assert(names_item(*c, parts, c.items@[k as int].name));
        assert(parts.len() >= 1);
    }
    let entry = &c.items[k];
    if !object_is_item_type(object_type, entry.item_type) {
        return Err(PlanError::WrongItemType(entry.item_type));
    }
    let mut proposed: Vec<Ident> = Vec::new();
    let n = name.0.len();
    let mut j: usize = 0;
    while j < n
        invariant
            j <= n,
            proposed.len() == j,
            n == name.0.len(),
            n >= 1,
            to_item_name@ == stmt.to_item_name@,
            proposed@.map_values(|s: String| s@) == parts.update(n - 1, to_item_name@).take(j as int),
            parts == name.0@.map_values(|s: String| s@),
        decreases n - j,
    {
        let ghost before = proposed@;
        let ghost target = parts.update(n - 1, to_item_name@);
        if j + 1 == n {
            proposed.push(to_item_name.clone());
            assert(target[j as int] == to_item_name@);
        } else {
            proposed.push(name.0[j].clone());
            assert(parts[j as int] == name.0@[j as int]@);
            assert(target[j as int] == parts[j as int]);
        }
        assert(proposed@ =~= before.push(proposed@[j as int]));
        assert(proposed@[j as int]@ == target[j as int]);
        j = j + 1;
        assert(proposed@.map_values(|s: String| s@) =~= parts.update(n - 1, to_item_name@).take(
            j as int,
        ));
    }
    assert(parts.update(n - 1, to_item_name@).take(n as int) =~= parts.update(n - 1, to_item_name@));
    let proposed_name = UnresolvedObjectName(proposed);
    if resolve_item(c, &proposed_name).is_some() {
        return Err(PlanError::NameTaken(to_item_name));
    }
    Ok(Plan::AlterItemRename { id: entry.id, to_name: to_item_name, object_type })
}


// ---------------------------------------------------------------------------
// CREATE TYPE
// ---------------------------------------------------------------------------

/// The option keys a type takes, in the order they are checked.
pub open spec fn type_option_keys(as_type: CreateTypeAs) -> Seq<Seq<char>> {
    match as_type {
        CreateTypeAs::List => seq!["element_type"@],
        CreateTypeAs::MapType => seq!["key_type"@, "value_type"@],
    }
}

/// The position of the last option with this key: a later option overrides
/// an earlier one.
pub open spec fn last_option(opts: Seq<TypeOption>, key: Seq<char>) -> Option<int>
    decreases opts.len(),
{
    if opts.len() == 0 {
        None
    } else if opts.last().key@ == key {
        Some(opts.len() - 1)
    } else {
        last_option(opts.drop_last(), key)
    }
}

/// The catalog item that the option `key` names as a type, or why there is
/// none.
pub open spec fn type_option_verdict(c: Catalog, opts: Seq<TypeOption>, key: Seq<char>, as_type: CreateTypeAs) -> Result<
    int,
    PlanErrorKind,
> {
    match last_option(opts, key) {
        None => Err(PlanErrorKind::MissingOption),
        Some(i) => match opts[i].value {
            TypeOptionValue::Other => Err(PlanErrorKind::NotADataType),
            TypeOptionValue::DataType { name, modifiers } => {
                let parts = parts_view(name);
                if item_unknown(c, parts) {
                    Err(PlanErrorKind::UnknownItem)
                } else {
                    let k = choose|k: int| resolves_item_to(c, parts, k);
                    if modifiers.len() > 0 {
                        Err(PlanErrorKind::TypeModifiers)
                    } else {
                        match c.items@[k].type_category {
                            None => Err(PlanErrorKind::NotAType),
                            Some(cat) => if cat == TypeCategory::Char && as_type
                                == CreateTypeAs::List {
                                Err(PlanErrorKind::Unsupported)
                            } else {
                                Ok(k)
                            },
                        }
                    }
                }
            },
        },
    }
}

/// Whether some option has a key the type does not take.
pub open spec fn has_unexpected_option(opts: Seq<TypeOption>, as_type: CreateTypeAs) -> bool {
    exists|j: int| 0 <= j < opts.len() && !type_option_keys(as_type).contains(#[trigger] opts[j].key@)
}

/// The catalog items a new type is built from, or the first failure.
pub open spec fn create_type_verdict(c: Catalog, stmt: CreateTypeStatement) -> Result<Seq<int>, PlanErrorKind> {
    let opts = stmt.with_options@;
    let keys = type_option_keys(stmt.as_type);
    let parts = parts_view(stmt.name);
    match type_option_verdict(c, opts, keys[0], stmt.as_type) {
        Err(e) => Err(e),
        Ok(k0) => {
            let items = if stmt.as_type == CreateTypeAs::List {
                Ok(seq![k0])
            } else {
                match type_option_verdict(c, opts, keys[1], stmt.as_type) {
                    Err(e) => Err(e),
                    Ok(k1) => Ok(seq![k0, k1]),
                }
            };
            match items {
                Err(e) => Err(e),
                Ok(ks) => if has_unexpected_option(opts, stmt.as_type) {
                    Err(PlanErrorKind::UnexpectedOption)
                } else if parts.len() == 0 || parts.len() > 3 {
                    Err(PlanErrorKind::InvalidName)
                } else if !item_unknown(c, parts) {
                    Err(PlanErrorKind::ItemExists)
                } else if stmt.as_type == CreateTypeAs::MapType && c.items@[k0].type_category
                    != Some(TypeCategory::Text) {
                    Err(PlanErrorKind::KeyTypeNotText)
                } else {
                    Ok(ks)
                },
            }
        },
    }
}

fn find_last_option(opts: &Vec<TypeOption>, key: &String) -> (r: Option<usize>)
    ensures
        r matches Some(i) ==> i < opts.len(),
        match r {
            Some(i) => last_option(opts@, key@) == Some(i as int),
            None => last_option(opts@, key@) is None,
        },
{
    let mut i: usize = opts.len();
    assert(opts@.take(i as int) =~= opts@);
    while i > 0
        invariant
            i <= opts.len(),
            last_option(opts@, key@) == last_option(opts@.take(i as int), key@),
        decreases i,
    {
        let ghost t = opts@.take(i as int);
        assert(t.drop_last() =~= opts@.take(i - 1));
        assert(t.last() == opts@[i - 1]);
        if opts[i - 1].key == *key {
            return Some(i - 1);
        }
        i = i - 1;
    }
    assert(opts@.take(0) =~= Seq::<TypeOption>::empty());
    None
}

fn plan_type_option(c: &Catalog, opts: &Vec<TypeOption>, key: &String, as_type: CreateTypeAs) -> (r:
    Result<usize, PlanError>)
    ensures
        r matches Ok(k) ==> k < c.items.len(),
        match type_option_verdict(*c, opts@, key@, as_type) {
            Ok(k) => r is Ok && r->Ok_0 as int == k,
            Err(e) => r is Err && kind_of(r->Err_0) == e,
        },
{
    let i = match find_last_option(opts, key) {
        Some(i) => i,
        None => return Err(PlanError::MissingOption(key.clone())),
    };
    match &opts[i].value {
        TypeOptionValue::Other => Err(PlanError::NotADataType(key.clone())),
        TypeOptionValue::DataType { name, modifiers } => {
            let k = match resolve_item(c, name) {
                Some(k) => k,
                None => return Err(PlanError::UnknownItem),
            };
            proof {
                let parts = parts_view(*name);
                let k1 = choose|k1: int| resolves_item_to(*c, parts, k1);
                lemma_resolves_unique(*c, parts, k as int, k1);
            }
            if modifiers.len() > 0 {
                return Err(PlanError::TypeModifiers(key.clone()));
            }
            match c.items[k].type_category {
                None => Err(PlanError::NotAType(key.clone())),
                Some(cat) => {
                    if cat == TypeCategory::Char && as_type == CreateTypeAs::List {
                        Err(PlanError::Unsupported("char list".to_owned()))
                    } else {
                        Ok(k)
                    }
                },
            }
        },
    }
}

/// `CREATE TYPE name AS LIST (element_type = t)` or
/// `CREATE TYPE name AS MAP (key_type = k, value_type = v)`: each option must
/// name a type without modifiers (a list of `char` is not supported), no
/// other option may be given, the name must be free, and a map's key type
/// must be text.
pub fn plan_create_type(scx: &StatementContext, stmt: CreateTypeStatement) -> (r: Result<
    Plan,
    PlanError,
>)
    ensures
        match create_type_verdict(scx.catalog, stmt) {
            Ok(ks) => r is Ok && r->Ok_0 is CreateType && r->Ok_0->CreateType_depends_on@
                == ks.map_values(|k: int| scx.catalog.items@[k].id)
                && r->Ok_0->CreateType_inner == if stmt.as_type == CreateTypeAs::List {
                CustomType::List { element_id: scx.catalog.items@[ks[0]].id }
            } else {
                CustomType::MapType {
                    key_id: scx.catalog.items@[ks[0]].id,
                    value_id: scx.catalog.items@[ks[1]].id,
                }
            },
            Err(e) => r is Err && kind_of(r->Err_0) == e,
        },
{
    let c = &scx.catalog;
    let element = "element_type".to_owned();
    let key_type = "key_type".to_owned();
    let value_type = "value_type".to_owned();
    proof {
        reveal_strlit("element_type");
        reveal_strlit("key_type");
        reveal_strlit("value_type");
    }
    let ghost keys = type_option_keys(stmt.as_type);
    let opts = &stmt.with_options;
    let first = if stmt.as_type == CreateTypeAs::List {
        &element
    } else {
        &key_type
    };
    let k0 = match plan_type_option(c, opts, first, stmt.as_type) {
        Ok(k) => k,
        Err(e) => return Err(e),
    };
    let mut ks: Vec<usize> = Vec::new();
    ks.push(k0);
    if stmt.as_type == CreateTypeAs::MapType {
        let k1 = match plan_type_option(c, opts, &value_type, stmt.as_type) {
            Ok(k) => k,
            Err(e) => return Err(e),
        };
        ks.push(k1);
    }
    assert(stmt.as_type == CreateTypeAs::List ==> ks@ =~= seq![k0]);
    assert(stmt.as_type == CreateTypeAs::List ==> keys[0] == element@);
    assert(stmt.as_type == CreateTypeAs::MapType ==> keys[0] == key_type@ && keys[1]
        == value_type@);
    let mut j: usize = 0;
    while j < opts.len()
        invariant
            j <= opts.len(),
            element@ == "element_type"@,
            key_type@ == "key_type"@,
            value_type@ == "value_type"@,
            keys == type_option_keys(stmt.as_type),
            *opts == stmt.with_options,
            *c == scx.catalog,
            k0 < c.items.len(),
            type_option_verdict(*c, opts@, keys[0], stmt.as_type) == Ok::<int, PlanErrorKind>(
                k0 as int,
            ),
            stmt.as_type == CreateTypeAs::List ==> ks@ == seq![k0],
            stmt.as_type == CreateTypeAs::MapType ==> ks.len() == 2 && ks@[0] == k0 && ks@[1]
                < c.items.len() && type_option_verdict(*c, opts@, keys[1], stmt.as_type) == Ok::<
                int,
                PlanErrorKind,
            >(ks@[1] as int),
            forall|m: int| 0 <= m < j ==> keys.contains(#[trigger] opts@[m].key@),
        decreases opts.len() - j,
    {
        let k = &opts[j].key;
        let known = match stmt.as_type {
            CreateTypeAs::List => *k == element,
            CreateTypeAs::MapType => *k == key_type || *k == value_type,
        };
        if !known {
            proof {
                if keys.contains(opts@[j as int].key@) {
                    let q = choose|q: int| 0 <= q < keys.len() && keys[q] == opts@[j as int].key@;
                }
            }
            return Err(PlanError::UnexpectedOption(k.clone()));
        }
        proof {
            if stmt.as_type == CreateTypeAs::List {
                assert(keys[0] == opts@[j as int].key@);
            } else if opts@[j as int].key@ == key_type@ {
                assert(keys[0] == opts@[j as int].key@);
            } else {
                assert(keys[1] == opts@[j as int].key@);
            }
        }
        j = j + 1;
    }
    let parts = &stmt.name.0;
    if parts.len() == 0 || parts.len() > 3 {
        return Err(PlanError::InvalidName);
    }
    if resolve_item(c, &stmt.name).is_some() {
        return Err(PlanError::ItemExists);
    }
    if stmt.as_type == CreateTypeAs::MapType && c.items[k0].type_category != Some(TypeCategory::Text) {
        return Err(PlanError::KeyTypeNotText);
    }
    let n = parts.len();
    let name = if n == 1 {
        FullName {
            database: DatabaseSpecifier::Name(c.default_database.clone()),
            schema: c.default_schema.clone(),
            item: parts[0].clone(),
        }
    } else if n == 2 {
        FullName {
            database: DatabaseSpecifier::Name(c.default_database.clone()),
            schema: parts[0].clone(),
            item: parts[1].clone(),
        }
    } else {
        FullName {
            database: DatabaseSpecifier::Name(parts[0].clone()),
            schema: parts[1].clone(),
            item: parts[2].clone(),
        }
    };
    let mut depends_on: Vec<GlobalId> = Vec::new();
    depends_on.push(c.items[k0].id);
    let inner = if stmt.as_type == CreateTypeAs::List {
        CustomType::List { element_id: c.items[k0].id }
    } else {
        let k1 = ks[1];
        depends_on.push(c.items[k1].id);
        CustomType::MapType { key_id: c.items[k0].id, value_id: c.items[k1].id }
    };
    proof {
        let ghost_ks = if stmt.as_type == CreateTypeAs::List {
            seq![k0 as int]
        } else {
            seq![k0 as int, ks@[1] as int]
        };
        assert(depends_on@ =~= ghost_ks.map_values(|k: int| scx.catalog.items@[k].id));
    }
    Ok(Plan::CreateType { name, inner, depends_on })
}

} // verus!
