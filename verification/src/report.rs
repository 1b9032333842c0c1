//! The lines that the commands print.

use vstd::prelude::*;
use vstd::string::*;
use vstd::utf8::{decode_utf8, valid_utf8};
use crate::error::labelled;
use crate::numeral::{decimal, hex_pair, push_decimal, push_hex_pair};
use crate::store::{texts, Failure, FailureView, Operation, Stat, StatReply, StatReplyView};

verus! {

/// The number of payload bytes shown on one line of a hexadecimal dump.
pub const DUMP_WIDTH: usize = 16;

/// One child of a listed node, with the answer to its metadata query.
#[derive(Clone, Debug, PartialEq, Eq)]
pub struct DirEntry {
    pub name: String,
    pub stat: StatReply,
}

/// A [`DirEntry`] as mathematical values.
pub struct DirEntryView {
    pub name: Seq<char>,
    pub stat: StatReplyView,
}

impl View for DirEntry {
    type V = DirEntryView;

    open spec fn view(&self) -> DirEntryView {
        DirEntryView { name: self.name@, stat: self.stat@ }
    }
}

/// The views of a sequence of entries.
pub open spec fn entries_view(entries: Seq<DirEntry>) -> Seq<DirEntryView> {
    Seq::new(entries.len(), |i: int| entries[i]@)
}

/// Every metadata field of a node, one per line.
pub open spec fn stat_lines_spec(path: Seq<char>, stat: Stat) -> Seq<Seq<char>> {
    seq![
        "节点路径: "@ + path,
        "创建事务ID: "@ + decimal(stat.czxid as int),
        "修改事务ID: "@ + decimal(stat.mzxid as int),
        "创建时间: "@ + decimal(stat.ctime as int),
        "修改时间: "@ + decimal(stat.mtime as int),
        "数据版本: "@ + decimal(stat.version as int),
        "子节点版本: "@ + decimal(stat.cversion as int),
        "ACL版本: "@ + decimal(stat.aversion as int),
        "临时节点所有者: "@ + decimal(stat.ephemeral_owner as int),
        "数据长度: "@ + decimal(stat.data_length as int) + " bytes"@,
        "子节点数量: "@ + decimal(stat.num_children as int),
        "子节点修改事务ID: "@ + decimal(stat.pzxid as int),
    ]
}

/// The lines above the children of a detailed listing.
pub open spec fn dir_header_spec(path: Seq<char>, stat: Stat) -> Seq<Seq<char>> {
    seq![
        "路径: "@ + path,
        "子节点数量: "@ + decimal(stat.num_children as int),
        "数据版本: "@ + decimal(stat.version as int),
        "创建时间: "@ + decimal(stat.ctime as int),
        "修改时间: "@ + decimal(stat.mtime as int),
        Seq::<char>::empty(),
        "子节点列表:"@,
    ]
}

/// The line of one child in a detailed listing: its metadata, or a marker
/// that says why there is none.
pub open spec fn dir_entry_line_spec(entry: DirEntryView) -> Seq<char> {
    match entry.stat {
        StatReplyView::Found(stat) => "  "@ + entry.name + " (版本: "@ + decimal(
            stat.version as int,
        ) + ", 子节点: "@ + decimal(stat.num_children as int) + ", 数据大小: "@ + decimal(
            stat.data_length as int,
        ) + " bytes)"@,
        StatReplyView::Missing => "  "@ + entry.name + " (节点不存在)"@,
        StatReplyView::Failed(_) => "  "@ + entry.name + " (无法获取状态)"@,
    }
}

/// A detailed listing: the header, then one line for every child, in the
/// order of `entries`, whatever the answer for any of them was.
pub open spec fn dir_lines_spec(path: Seq<char>, stat: Stat, entries: Seq<DirEntryView>) -> Seq<
    Seq<char>,
> {
    dir_header_spec(path, stat) + Seq::new(
        entries.len(),
        |i: int| dir_entry_line_spec(entries[i]),
    )
}

/// The bytes of one dump line: two hexadecimal digits each, with one space
/// between neighbours.
pub open spec fn hex_line(bytes: Seq<u8>) -> Seq<char>
    decreases bytes.len(),
{
    if bytes.len() == 0 {
        Seq::empty()
    } else if bytes.len() == 1 {
        hex_pair(bytes[0])
    } else {
        hex_line(bytes.drop_last()) + seq![' '] + hex_pair(bytes.last())
    }
}

/// The number of dump lines that `len` bytes take.
pub open spec fn dump_height(len: nat) -> nat {
    (len + 15) / 16
}

/// The bytes on line `i` of the dump of `data`.
pub open spec fn dump_row(data: Seq<u8>, i: int) -> Seq<u8> {
    data.subrange(
        16 * i,
        if 16 * i + 16 <= data.len() {
            16 * i + 16
        } else {
            data.len() as int
        },
    )
}

/// The hexadecimal dump of `data`: sixteen bytes to a line, the last line
/// holding what is left.
pub open spec fn hex_dump(data: Seq<u8>) -> Seq<Seq<char>> {
    Seq::new(dump_height(data.len()), |i: int| hex_line(dump_row(data, i)))
}

/// What reading a node prints: the payload as text where it is well-formed
/// UTF-8, else a notice and the hexadecimal dump.
pub open spec fn payload_lines_spec(data: Seq<u8>) -> Seq<Seq<char>> {
    if valid_utf8(data) {
        seq![decode_utf8(data)]
    } else {
        seq!["(二进制数据，十六进制表示)"@] + hex_dump(data)
    }
}

/// The line that warns of a failure that force mode let pass: a failed
/// listing names the node whose children stay unknown, any other failure the
/// node whose deletion went wrong.
pub open spec fn warning_line_spec(failure: FailureView) -> Seq<char> {
    if failure.operation == Operation::List {
        "警告: 无法列出 "@ + failure.path + " 的子节点: "@ + failure.cause
    } else {
        deletion_warning_spec(failure.path, failure.cause)
    }
}

/// The line that warns that the deletion of `path` went wrong.
pub open spec fn deletion_warning_spec(path: Seq<char>, reason: Seq<char>) -> Seq<char> {
    "警告: 删除 "@ + path + " 时出错: "@ + reason
}

/// `label` followed by the decimal numeral of `n`.
pub fn numbered(label: &str, n: i64) -> (line: String)
    ensures
        line@ == label@ + decimal(n as int),
{
    let mut line = String::from_str(label);
    push_decimal(&mut line, n);
    line
}

/// Every metadata field of the node at `path`, one per line.
pub fn stat_lines(path: &str, stat: &Stat) -> (lines: Vec<String>)
    ensures
        texts(lines@) == stat_lines_spec(path@, *stat),
{
    let mut lines: Vec<String> = Vec::new();
    lines.push(labelled("节点路径: ", path));
    lines.push(numbered("创建事务ID: ", stat.czxid));
    lines.push(numbered("修改事务ID: ", stat.mzxid));
    lines.push(numbered("创建时间: ", stat.ctime));
    lines.push(numbered("修改时间: ", stat.mtime));
    lines.push(numbered("数据版本: ", stat.version as i64));
    lines.push(numbered("子节点版本: ", stat.cversion as i64));
    lines.push(numbered("ACL版本: ", stat.aversion as i64));
    lines.push(numbered("临时节点所有者: ", stat.ephemeral_owner));
    let mut length = numbered("数据长度: ", stat.data_length as i64);
    length.append(" bytes");
    lines.push(length);
    lines.push(numbered("子节点数量: ", stat.num_children as i64));
    lines.push(numbered("子节点修改事务ID: ", stat.pzxid));
    lines
}

/// The line of one child in a detailed listing.
pub fn dir_entry_line(entry: &DirEntry) -> (line: String)
    ensures
        line@ == dir_entry_line_spec(entry@),
{
    let mut line = labelled("  ", entry.name.as_str());
    match &entry.stat {
        StatReply::Found(stat) => {
            line.append(" (版本: ");
            push_decimal(&mut line, stat.version as i64);
            line.append(", 子节点: ");
            push_decimal(&mut line, stat.num_children as i64);
            line.append(", 数据大小: ");
            push_decimal(&mut line, stat.data_length as i64);
            line.append(" bytes)");
        },
        StatReply::Missing => {
            line.append(" (节点不存在)");
        },
        StatReply::Failed(_) => {
            line.append(" (无法获取状态)");
        },
    }
    line
}

/// The detailed listing of the node at `path`, whose metadata is `stat` and
/// whose children, each with the answer to its metadata query, are `entries`.
///
/// Every child gets its line: a child whose query failed, or that is gone,
/// is marked as such and hides no other.
pub fn dir_lines(path: &str, stat: &Stat, entries: &Vec<DirEntry>) -> (lines: Vec<String>)
    ensures
        texts(lines@) == dir_lines_spec(path@, *stat, entries_view(entries@)),
{
    let mut lines: Vec<String> = Vec::new();
    lines.push(labelled("路径: ", path));
    lines.push(numbered("子节点数量: ", stat.num_children as i64));
    lines.push(numbered("数据版本: ", stat.version as i64));
    lines.push(numbered("创建时间: ", stat.ctime));
    lines.push(numbered("修改时间: ", stat.mtime));
    lines.push(String::new());
    lines.push(String::from_str("子节点列表:"));
    let ghost wanted = dir_lines_spec(path@, *stat, entries_view(entries@));
    let mut i: usize = 0;
    while i < entries.len()
        invariant
            i <= entries.len(),
            wanted == dir_lines_spec(path@, *stat, entries_view(entries@)),
            texts(lines@) =~= wanted.subrange(0, 7 + i),
        decreases entries.len() - i,
    {
        let line = dir_entry_line(&entries[i]);
        lines.push(line);
        proof {
            assert(wanted.subrange(0, 7 + i + 1) =~= wanted.subrange(0, 7 + i).push(
                wanted[7 + i],
            ));
        }
        i += 1;
    }
    lines
}

/// The line that warns of a failure that force mode let pass.
pub fn warning_line(failure: &Failure) -> (line: String)
    ensures
        line@ == warning_line_spec(failure@),
{
    match failure.operation {
        Operation::List => {
            let mut line = labelled("警告: 无法列出 ", failure.path.as_str());
            line.append(" 的子节点: ");
            line.append(failure.cause.reason.as_str());
            line
        },
        _ => deletion_warning(failure.path.as_str(), failure.cause.reason.as_str()),
    }
}

/// The line that warns that the deletion of `path` went wrong.
pub fn deletion_warning(path: &str, reason: &str) -> (line: String)
    ensures
        line@ == deletion_warning_spec(path@, reason@),
{
    let mut line = labelled("警告: 删除 ", path);
    line.append(" 时出错: ");
    line.append(reason);
    line
}

/// The text that a payload holds, if it is text.
///
/// Calls `String::from_utf8` of the standard library, which hands the bytes
/// back as a string exactly when they are well-formed UTF-8. The contract
/// states that in the terms of `vstd::utf8`: the string is there if and only
/// if the bytes are valid, and its characters are the ones they decode to.
#[verifier::external_body]
fn utf8_text(data: &Vec<u8>) -> (text: Option<String>)
    ensures
        match text {
            Some(string) => valid_utf8(data@) && string@ == decode_utf8(data@),
            None => !valid_utf8(data@),
        },
{
    String::from_utf8(data.clone()).ok()
}

/// The bytes `data[start..end]` as one dump line.
fn hex_row(data: &Vec<u8>, start: usize, end: usize) -> (line: String)
    requires
        start <= end <= data.len(),
    ensures
        line@ == hex_line(data@.subrange(start as int, end as int)),
{
    let mut line = String::new();
    let mut i: usize = start;
    while i < end
        invariant
            start <= i <= end <= data.len(),
            line@ == hex_line(data@.subrange(start as int, i as int)),
        decreases end - i,
    {
        let ghost before = data@.subrange(start as int, i as int);
        let ghost after = data@.subrange(start as int, i + 1);
        if i > start {
            line.append(" ");
        }
        push_hex_pair(&mut line, data[i]);
        proof {
            reveal_strlit(" ");
            assert(after.drop_last() =~= before);
        }
        i += 1;
    }
    line
}

/// The hexadecimal dump of `data`, sixteen bytes to a line.
pub fn hex_dump_lines(data: &Vec<u8>) -> (lines: Vec<String>)
    ensures
        texts(lines@) == hex_dump(data@),
{
    let mut lines: Vec<String> = Vec::new();
    let mut start: usize = 0;
    while start < data.len()
        invariant
            start <= data.len(),
            start == 16 * lines.len() || (start == data.len() && lines.len() == dump_height(
                data@.len(),
            )),
            lines.len() <= dump_height(data@.len()),
            forall|j: int| 0 <= j < lines.len() ==> (#[trigger] lines[j])@ == hex_line(dump_row(data@, j)),
        decreases data.len() - start,
    {
        let end = if data.len() - start > DUMP_WIDTH {
            start + DUMP_WIDTH
        } else {
            data.len()
        };
        let line = hex_row(data, start, end);
        lines.push(line);
        start = end;
    }
    lines
}

/// What reading a node with payload `data` prints.
pub fn payload_lines(data: &Vec<u8>) -> (lines: Vec<String>)
    ensures
        texts(lines@) == payload_lines_spec(data@),
{
    match utf8_text(data) {
        Some(text) => {
            let mut lines: Vec<String> = Vec::new();
            lines.push(text);
            lines
        },
        None => {
            let mut lines: Vec<String> = Vec::new();
            lines.push(String::from_str("(二进制数据，十六进制表示)"));
            let mut dump = hex_dump_lines(data);
            lines.append(&mut dump);
            lines
        },
    }
}

} // verus!
