//! Verified core of an account-existence checker.
//!
//! For one or many candidate addresses, the library builds the lookup
//! request sent to a remote identity service, classifies the structured
//! response into an existence verdict, and partitions the verdicts of a
//! batch run into the two output lists. All I/O (console, files, the
//! network call itself) lives outside the library; the functions here
//! take and return plain values and are verified.

pub mod addr;
pub mod paths;
pub mod run;
pub mod sink;
pub mod verdict;
pub mod wire;
