//! A backend built on one primitive: named accounts with balances, and
//! value-conserving transfers between them.
//!
//! Rows, fields, ownership and permissions are all positive balances on
//! accounts named by convention (`product:<id>:price`, `user:<id>:admin`).
//! On top of the ledger sits an interpreter for declarative operation
//! templates ("sparks"), a blob store for free text, and a permission model.
use vstd::prelude::*;

pub mod addressing;
pub mod balances;
pub mod blob;
pub mod context;
pub mod digest;
pub mod genesis;
pub mod ids;
pub mod interp;
pub mod ledger;
pub mod permission;
pub mod product;
pub mod recipe;
pub mod records;
pub mod router;
pub mod rows;
pub mod spark;
pub mod text;

verus! {

/// Version of this library.
pub const VERSION: &'static str = "0.1.0";

/// What the library stands for.
pub const MANIFESTO: &'static str = "
ZIK_ZAK MANIFESTO

The best code is no code.
The best database is no database.
The best API is no API.
The best schema is no schema.

Everything is accounting.
Everything flows from GENESIS.

Backend development is dead.
We killed it.
You're welcome.
";

} // verus!
