use vstd::prelude::*;
use crate::types::{DatabaseType, StorageType};

verus! {

/// How a memory context stores its messages.
#[derive(Debug, Clone)]
pub struct MemContextConfig {
    /// storage type
    pub storage_type: StorageType,
    pub db_type: Option<DatabaseType>,
    pub lancedb_storage_path: Option<String>,
    pub sqlite_storage_path: Option<String>,
    pub local_storage_path: Option<String>,
}

/// The settings that open a database.
#[derive(Debug, Clone)]
pub struct DatabaseConfig {
    pub db_type: DatabaseType,
    pub sqlite_storage_path: Option<String>,
    pub lancedb_storage_path: Option<String>,
}

/// The store that a configuration selects, with where it lives.
pub enum Backend {
    /// An SQLite database file.
    SQLite { path: String },
    /// A directory of JSON files, one per session.
    Local { path: String },
}

/// Why a configuration selects no store.
#[derive(Debug, Clone, Copy, PartialEq, Eq, Structural)]
pub enum ConfigError {
    /// Only SQLite databases can be opened.
    UnsupportedDatabase(DatabaseType),
}

/// The view of an optional string.
pub open spec fn opt_view(o: Option<String>) -> Option<Seq<char>> {
    match o {
        Some(s) => Some(s@),
        None => None,
    }
}

/// The directory (or database file) used when no path is configured.
pub open spec fn default_data_path() -> Seq<char> {
    "./memcontext_data"@
}

/// The SQLite file used when a database configuration names none.
pub open spec fn default_sqlite_file() -> Seq<char> {
    "./memcontext.db"@
}

fn clone_opt(o: &Option<String>) -> (r: Option<String>)
    ensures
        opt_view(r) == opt_view(*o),
{
    match o {
        Some(s) => Some(s.clone()),
        None => None,
    }
}

impl Backend {
    /// The kind of store and its path.
    pub open spec fn kind_and_path(self) -> (StorageType, Seq<char>) {
        match self {
            Backend::SQLite { path } => (StorageType::DB, path@),
            Backend::Local { path } => (StorageType::Local, path@),
        }
    }
}

impl Default for MemContextConfig {
    /// An SQLite store at "./memcontext_data".
    fn default() -> (c: Self)
        ensures
            c.storage_type == StorageType::DB,
            c.db_type == Some(DatabaseType::SQLite),
            opt_view(c.sqlite_storage_path) == Some(default_data_path()),
            c.lancedb_storage_path is None,
            c.local_storage_path is None,
    {
        MemContextConfig {
            storage_type: StorageType::DB,
            sqlite_storage_path: Some(String::from_str("./memcontext_data")),
            db_type: Some(DatabaseType::SQLite),
            lancedb_storage_path: None,
            local_storage_path: None,
        }
    }
}

/// The engine that a database configuration of `c` names: SQLite when none
/// is given.
pub open spec fn chosen_db_type(c: MemContextConfig) -> DatabaseType {
    match c.db_type {
        Some(t) => t,
        None => DatabaseType::SQLite,
    }
}

/// The SQLite file that a database configuration opens, or the engine it
/// names when that is not SQLite.
pub open spec fn planned_sqlite_file(d: DatabaseConfig) -> Result<Seq<char>, DatabaseType> {
    if d.db_type == DatabaseType::SQLite {
        match opt_view(d.sqlite_storage_path) {
            Some(p) => Ok(p),
            None => Ok(default_sqlite_file()),
        }
    } else {
        Err(d.db_type)
    }
}

/// The store that a configuration selects: its kind and path, or the engine
/// that cannot be opened.
pub open spec fn planned_backend(c: MemContextConfig) -> Result<(StorageType, Seq<char>), DatabaseType> {
    match c.storage_type {
        StorageType::DB => {
            let t = chosen_db_type(c);
            if t == DatabaseType::SQLite {
                match opt_view(c.sqlite_storage_path) {
                    Some(p) => Ok((StorageType::DB, p)),
                    None => Ok((StorageType::DB, default_sqlite_file())),
                }
            } else {
                Err(t)
            }
        },
        StorageType::Local => match opt_view(c.local_storage_path) {
            Some(p) => Ok((StorageType::Local, p)),
            None => Ok((StorageType::Local, default_data_path())),
        },
    }
}

/// `d` holds the database settings of `c`: the engine it names (SQLite if
/// none) and only the path that belongs to that engine.
pub open spec fn is_database_config_of(c: MemContextConfig, d: DatabaseConfig) -> bool {
    &&& d.db_type == chosen_db_type(c)
    &&& opt_view(d.sqlite_storage_path) == if d.db_type == DatabaseType::SQLite {
        opt_view(c.sqlite_storage_path)
    } else {
        None
    }
    &&& opt_view(d.lancedb_storage_path) == if d.db_type == DatabaseType::LanceDB {
        opt_view(c.lancedb_storage_path)
    } else {
        None
    }
}

impl MemContextConfig {
    /// The database settings that a `DB` configuration passes on: the engine
    /// (SQLite if none is named) and only the path that belongs to it.
    pub fn database_config(&self) -> (d: DatabaseConfig)
        ensures
            is_database_config_of(*self, d),
    {
        let db_type = match self.db_type {
            Some(t) => t,
            None => DatabaseType::SQLite,
        };
        let (sqlite_path, lancedb_path) = match db_type {
            DatabaseType::SQLite => (clone_opt(&self.sqlite_storage_path), None),
            DatabaseType::LanceDB => (None, clone_opt(&self.lancedb_storage_path)),
            _ => (None, None),
        };
        DatabaseConfig { db_type, sqlite_storage_path: sqlite_path, lancedb_storage_path: lancedb_path }
    }

    /// The directory of a `Local` configuration: "./memcontext_data" if none
    /// is given.
    pub fn local_storage_dir(&self) -> (p: String)
        ensures
            p@ == match opt_view(self.local_storage_path) {
                Some(p) => p,
                None => default_data_path(),
            },
    {
        match &self.local_storage_path {
            Some(p) => p.clone(),
            None => String::from_str("./memcontext_data"),
        }
    }

    /// The store that this configuration selects.
    pub fn backend(&self) -> (r: Result<Backend, ConfigError>)
        ensures
            match r {
                Ok(b) => planned_backend(*self) == Ok::<(StorageType, Seq<char>), DatabaseType>(b.kind_and_path()),
                Err(ConfigError::UnsupportedDatabase(t)) => planned_backend(*self) == Err::<
                    (StorageType, Seq<char>),
                    DatabaseType,
                >(t),
            },
    {
        match self.storage_type {
            StorageType::DB => {
                let d = self.database_config();
                match d.sqlite_file() {
                    Ok(path) => Ok(Backend::SQLite { path }),
                    Err(e) => Err(e),
                }
            },
            StorageType::Local => Ok(Backend::Local { path: self.local_storage_dir() }),
        }
    }
}

impl DatabaseConfig {
    /// The SQLite file to open ("./memcontext.db" if none is given), or an
    /// error for any engine other than SQLite.
    pub fn sqlite_file(&self) -> (r: Result<String, ConfigError>)
        ensures
            match r {
                Ok(p) => planned_sqlite_file(*self) == Ok::<Seq<char>, DatabaseType>(p@),
                Err(ConfigError::UnsupportedDatabase(t)) => planned_sqlite_file(*self) == Err::<
                    Seq<char>,
                    DatabaseType,
                >(t),
            },
    {
        match self.db_type {
            DatabaseType::SQLite => match &self.sqlite_storage_path {
                Some(p) => Ok(p.clone()),
                None => Ok(String::from_str("./memcontext.db")),
            },
            t => Err(ConfigError::UnsupportedDatabase(t)),
        }
    }
}

/// The default configuration selects an SQLite database at
/// "./memcontext_data".
pub proof fn lemma_default_backend(c: MemContextConfig)
    requires
        c.storage_type == StorageType::DB,
        c.db_type == Some(DatabaseType::SQLite),
        opt_view(c.sqlite_storage_path) == Some(default_data_path()),
    ensures
        planned_backend(c) == Ok::<(StorageType, Seq<char>), DatabaseType>((StorageType::DB, default_data_path())),
{
}

} // verus!

verus! {

/// A database configuration that names no engine opens the same store as one
/// that names SQLite, all else being equal.
pub proof fn lemma_unset_db_type_is_sqlite(c1: MemContextConfig, c2: MemContextConfig)
    requires
        c1.storage_type == StorageType::DB,
        c1.db_type is None,
        c2.storage_type == c1.storage_type,
        c2.db_type == Some(DatabaseType::SQLite),
        opt_view(c2.sqlite_storage_path) == opt_view(c1.sqlite_storage_path),
        opt_view(c2.lancedb_storage_path) == opt_view(c1.lancedb_storage_path),
        opt_view(c2.local_storage_path) == opt_view(c1.local_storage_path),
    ensures
        planned_backend(c1) == planned_backend(c2),
{
}

} // verus!

verus! {

/// The database settings of a configuration that names no engine open the
/// same SQLite file as those of one that names SQLite, all else being equal:
/// the configured SQLite path, or "./memcontext.db" if there is none.
pub proof fn lemma_unset_db_type_opens_same_file(
    c1: MemContextConfig,
    c2: MemContextConfig,
    d1: DatabaseConfig,
    d2: DatabaseConfig,
)
    requires
        c1.db_type is None,
        c2.db_type == Some(DatabaseType::SQLite),
        opt_view(c2.sqlite_storage_path) == opt_view(c1.sqlite_storage_path),
        is_database_config_of(c1, d1),
        is_database_config_of(c2, d2),
    ensures
        planned_sqlite_file(d1) == planned_sqlite_file(d2),
        planned_sqlite_file(d1) == Ok::<Seq<char>, DatabaseType>(
            match opt_view(c1.sqlite_storage_path) {
                Some(p) => p,
                None => default_sqlite_file(),
            },
        ),
{
}

} // verus!
