//! The shell commands that a transfer runs, and the progress lines it shows.

use crate::text::{
    append_str, decimal, fields_of, parse_i64, parsed_i64, push_decimal, split_fields, string_from,
};
use vstd::prelude::*;

verus! {

/// The command that creates directory `dir` with its missing parents.
pub open spec fn mkdir_text(dir: Seq<char>) -> Seq<char> {
    "mkdir -p \""@ + dir + "\""@
}

/// The command that lists every directory under `dir`, one per line.
pub open spec fn find_dirs_text(dir: Seq<char>) -> Seq<char> {
    "find "@ + dir + " -type d"@
}

/// The command that lists every file under `dir`, one per line.
pub open spec fn find_files_text(dir: Seq<char>) -> Seq<char> {
    "find "@ + dir + " -type f"@
}

/// The command that reports the free space of the device's file system
/// holding `dir`, as its last line.
pub open spec fn device_df_text(dir: Seq<char>) -> Seq<char> {
    "df \""@ + dir + "\" | tail -n 1"@
}

/// The command that reports, in KiB, the free space of the local file
/// system holding `dir`, as its last line.
pub open spec fn local_df_text(dir: Seq<char>) -> Seq<char> {
    "df -k \""@ + dir + "\" | tail -n 1"@
}

/// The counter shown before the `index`-th of `total` transfers.
pub open spec fn progress_tag_text(index: nat, total: nat) -> Seq<char> {
    "["@ + decimal(index) + "/"@ + decimal(total) + "]"@
}

/// The line shown for a transfer of `rel`: "Adding" for a file that the
/// target lacks, "Updating" for one it has in an older state.
pub open spec fn progress_message_text(is_new: bool, rel: Seq<char>) -> Seq<char> {
    (if is_new {
        "Adding"@
    } else {
        "Updating"@
    }) + " "@ + rel
}

/// The two parts of the line shown for one transfer: the counter and the
/// message.
#[derive(Debug, PartialEq, Eq)]
pub struct Progress {
    pub tag: String,
    pub message: String,
}

/// The command that creates directory `dir` with its missing parents.
pub fn mkdir_command(dir: &str) -> (cmd: String)
    ensures
        cmd@ == mkdir_text(dir@),
{
    let mut v: Vec<char> = Vec::new();
    append_str(&mut v, "mkdir -p \"");
    append_str(&mut v, dir);
    append_str(&mut v, "\"");
    string_from(&v)
}

/// The command that lists every directory under `dir`.
pub fn find_dirs_command(dir: &str) -> (cmd: String)
    ensures
        cmd@ == find_dirs_text(dir@),
{
    let mut v: Vec<char> = Vec::new();
    append_str(&mut v, "find ");
    append_str(&mut v, dir);
    append_str(&mut v, " -type d");
    string_from(&v)
}

/// The command that lists every file under `dir`.
pub fn find_files_command(dir: &str) -> (cmd: String)
    ensures
        cmd@ == find_files_text(dir@),
{
    let mut v: Vec<char> = Vec::new();
    append_str(&mut v, "find ");
    append_str(&mut v, dir);
    append_str(&mut v, " -type f");
    string_from(&v)
}

/// The command that reports the device's free space where `dir` lies.
pub fn device_df_command(dir: &str) -> (cmd: String)
    ensures
        cmd@ == device_df_text(dir@),
{
    let mut v: Vec<char> = Vec::new();
    append_str(&mut v, "df \"");
    append_str(&mut v, dir);
    append_str(&mut v, "\" | tail -n 1");
    string_from(&v)
}

/// The command that reports the local free space, in KiB, where `dir` lies.
pub fn local_df_command(dir: &str) -> (cmd: String)
    ensures
        cmd@ == local_df_text(dir@),
{
    let mut v: Vec<char> = Vec::new();
    append_str(&mut v, "df -k \"");
    append_str(&mut v, dir);
    append_str(&mut v, "\" | tail -n 1");
    string_from(&v)
}

/// Why no free space could be read from a `df` report line.
#[derive(Debug, PartialEq, Eq)]
pub enum DfError {
    /// The line has fewer than four fields.
    MissingField,
    /// The fourth field, the free space, is not an `i64` in decimal.
    NotANumber(String),
}

/// The free space that a `df` report line gives in its fourth field.
pub fn free_space_kib(report: &str) -> (r: Result<i64, DfError>)
    ensures
        fields_of(report@).len() < 4 ==> r == Err::<i64, DfError>(DfError::MissingField),
        fields_of(report@).len() >= 4 ==> match parsed_i64(fields_of(report@)[3]) {
            Some(v) => r == Ok::<i64, DfError>(v as i64),
            None => r matches Err(DfError::NotANumber(f)) && f@ == fields_of(report@)[3],
        },
{
    let fields = split_fields(report);
    if fields.len() < 4 {
        return Err(DfError::MissingField);
    }
    let field = &fields[3];
    match parse_i64(field.as_str()) {
        Some(v) => Ok(v),
        None => Err(DfError::NotANumber(field.clone())),
    }
}

/// The counter "[index/total]" shown before a transfer.
pub fn progress_tag(index: u64, total: u64) -> (tag: String)
    ensures
        tag@ == progress_tag_text(index as nat, total as nat),
{
    let mut v: Vec<char> = Vec::new();
    append_str(&mut v, "[");
    push_decimal(&mut v, index);
    append_str(&mut v, "/");
    push_decimal(&mut v, total);
    append_str(&mut v, "]");
    string_from(&v)
}

/// The line "Adding <rel>" or "Updating <rel>" shown for a transfer.
pub fn progress_message(is_new: bool, rel: &str) -> (msg: String)
    ensures
        msg@ == progress_message_text(is_new, rel@),
{
    let mut v: Vec<char> = Vec::new();
    if is_new {
        append_str(&mut v, "Adding");
    } else {
        append_str(&mut v, "Updating");
    }
    append_str(&mut v, " ");
    append_str(&mut v, rel);
    string_from(&v)
}

} // verus!
