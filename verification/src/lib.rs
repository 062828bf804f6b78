//! The verified core of a MySQL-compatible database: storage, SQL text, configuration and tools.
pub mod actor;
pub mod actorlaws;
pub mod adminlaws;
pub mod agent;
pub mod agentclient;
pub mod alter;
pub mod altercheck;
pub mod altered;
pub mod alterlaws;
pub mod apply;
pub mod assoc;
pub mod backup;
pub mod batch;
pub mod batchlaws;
pub mod bench;
pub mod bufferpool;
pub mod cells;
pub mod chainlaws;
pub mod checklaws;
pub mod checks;
pub mod codec;
pub mod commands;
pub mod config;
pub mod database;
pub mod decimals;
pub mod disk;
pub mod dmlcheck;
pub mod dump;
pub mod dumplaws;
pub mod error;
pub mod fkeys;
pub mod guardlaws;
pub mod ids;
pub mod images;
pub mod index;
pub mod inventory;
pub mod journal;
pub mod keylaws;
pub mod loglaws;
pub mod manager;
pub mod metrics;
pub mod migrate;
pub mod mvcc;
pub mod mvcclaws;
pub mod num;
pub mod order;
pub mod page;
pub mod pairs;
pub mod parselaws;
pub mod parser;
pub mod poollaws;
pub mod predicate;
pub mod prepare;
pub mod preparelaws;
pub mod recovery;
pub mod recoverylaws;
pub mod redo;
pub mod referential;
pub mod replay;
pub mod replaylaws;
pub mod restorelaws;
pub mod routinelaws;
pub mod router;
pub mod row;
pub mod rowlaws;
pub mod rowpages;
pub mod schema;
pub mod script;
pub mod search;
pub mod security;
pub mod seqs;
pub mod sqltext;
pub mod staging;
pub mod steplaws;
pub mod store;
pub mod table;
pub mod tablelaws;
pub mod text;
pub mod toollaws;
pub mod update;
pub mod validate;
pub mod values;
pub mod wal;
pub mod worklaws;
pub mod writelaws;
