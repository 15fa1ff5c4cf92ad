//! Hosts in a CSV file: one row each, under a header that names the columns.
use vstd::prelude::*;

use crate::args::{
    auth_named, lemma_port_reads, parse_auth, parse_port, parse_protocol, port_of, protocol_named,
};
use crate::csv::{read_rows, row_models, rows_in, table_text, tables_round_trip, write_rows};
use crate::id::{all_random, Id};
use crate::import::{
    import_models, import_outcome, imported_hosts_are_sound, imported_hosts_connect_as_asked,
    imported_hosts_go_through_what_they_name, lemma_outcome_length, parse_template,
    HostImportTemplate, ImportError, ImportErrorModel, ImportHost, ImportModel, ImportedHost,
    TEMPLATE_VERSION,
};
use crate::json::{array_in, array_text, read_array, write_array};
use crate::listing::{find_jump_alias, jump_alias};
use crate::model::{models, normalized, HostProfile, ProfileModel, Protocol, SshAuth};
use crate::pool::holds_id;
use crate::secret::Secret;
use crate::text::{
    chars_of, decimal, decimal_string, read_utf8, same_text, string_of, texts, trimmed,
};

verus! {

/// The columns that an export writes, in their order.
pub open spec fn columns() -> Seq<Seq<char>> {
    seq![
        "alias"@,
        "address"@,
        "port"@,
        "username"@,
        "protocol"@,
        "ssh_auth"@,
        "private_key_path"@,
        "jump_host"@,
        "description"@,
        "tags"@,
    ]
}

/// A column that may stand in a file. The last two bring secrets, which go to the credential
/// store; no export writes them.
pub open spec fn is_column(name: Seq<char>) -> bool {
    ||| name == "alias"@
    ||| name == "address"@
    ||| name == "port"@
    ||| name == "username"@
    ||| name == "protocol"@
    ||| name == "ssh_auth"@
    ||| name == "private_key_path"@
    ||| name == "jump_host"@
    ||| name == "description"@
    ||| name == "tags"@
    ||| name == "password"@
    ||| name == "key_passphrase"@
}

fn is_known(name: &str) -> (r: bool)
    ensures
        r == is_column(name@),
{
    same_text(name, "alias") || same_text(name, "address") || same_text(name, "port") || same_text(
        name,
        "username",
    ) || same_text(name, "protocol") || same_text(name, "ssh_auth") || same_text(
        name,
        "private_key_path",
    ) || same_text(name, "jump_host") || same_text(name, "description") || same_text(name, "tags")
        || same_text(name, "password") || same_text(name, "key_passphrase")
}

/// Position of the first cell with a text; the number of cells when there is none.
pub open spec fn column_of(header: Seq<Seq<char>>, name: Seq<char>) -> int
    decreases header.len(),
{
    if header.len() == 0 || header[0] == name {
        0
    } else {
        1 + column_of(header.skip(1), name)
    }
}

/// The cell of a row under a column; empty where the column is missing.
pub open spec fn cell_of(
    header: Seq<Seq<char>>,
    row: Seq<Seq<char>>,
    name: Seq<char>,
) -> Seq<char> {
    let at = column_of(header, name);
    if at < header.len() && at < row.len() {
        row[at]
    } else {
        Seq::empty()
    }
}

fn find_column(header: &Vec<String>, name: &str) -> (r: usize)
    ensures
        r == column_of(texts(header@), name@),
        r <= header@.len(),
        r < header@.len() ==> header@[r as int]@ == name@,
{
    let ghost cells = texts(header@);
    let mut i: usize = 0;
    assert(cells.skip(0) =~= cells);
    while i < header.len()
        invariant
            i <= header@.len(),
            cells == texts(header@),
            i + column_of(cells.skip(i as int), name@) == column_of(cells, name@),
        decreases header@.len() - i,
    {
        assert(cells.skip(i as int)[0] == header@[i as int]@);
        if same_text(header[i].as_str(), name) {
            return i;
        }
        assert(cells.skip(i as int).skip(1) =~= cells.skip(i + 1));
        i = i + 1;
    }
    i
}

fn find_cell<'a>(header: &Vec<String>, row: &'a Vec<String>, name: &str) -> (r: &'a str)
    ensures
        r@ == cell_of(texts(header@), texts(row@), name@),
{
    let at = find_column(header, name);
    if at < header.len() && at < row.len() {
        row[at].as_str()
    } else {
        proof {
            reveal_strlit("");
            assert(""@ =~= Seq::<char>::empty());
        }
        ""
    }
}

pub open spec fn has_unknown(header: Seq<Seq<char>>) -> bool {
    exists|i: int| 0 <= i < header.len() && !is_column(#[trigger] header[i])
}

/// Some name stands at a later place than its first one.
pub open spec fn has_repeated(header: Seq<Seq<char>>) -> bool {
    exists|i: int| 0 <= i < header.len() && column_of(header, #[trigger] header[i]) != i
}

/// What is wrong with a header, if anything is.
pub open spec fn header_fault(header: Seq<Seq<char>>) -> Option<Seq<char>> {
    if has_unknown(header) {
        Some("a column is unknown"@)
    } else if has_repeated(header) {
        Some("a column stands twice"@)
    } else if column_of(header, "alias"@) == header.len() || column_of(header, "address"@)
        == header.len() || column_of(header, "username"@) == header.len() {
        Some("the columns alias, address and username are needed"@)
    } else {
        None
    }
}

fn check_header(header: &Vec<String>) -> (r: Option<&'static str>)
    ensures
        match r {
            Some(reason) => header_fault(texts(header@)) == Some(reason@),
            None => header_fault(texts(header@)) is None,
        },
{
    let ghost cells = texts(header@);
    let mut i: usize = 0;
    while i < header.len()
        invariant
            i <= header@.len(),
            cells == texts(header@),
            forall|j: int| 0 <= j < i ==> is_column(#[trigger] cells[j]),
        decreases header@.len() - i,
    {
        if !is_known(header[i].as_str()) {
            assert(!is_column(cells[i as int]));
            return Some("a column is unknown");
        }
        i = i + 1;
    }
    assert(!has_unknown(cells));
    let mut i: usize = 0;
    while i < header.len()
        invariant
            i <= header@.len(),
            cells == texts(header@),
            !has_unknown(cells),
            forall|j: int| 0 <= j < i ==> column_of(cells, #[trigger] cells[j]) == j,
        decreases header@.len() - i,
    {
        if find_column(header, header[i].as_str()) != i {
            assert(column_of(cells, cells[i as int]) != i);
            return Some("a column stands twice");
        }
        assert(column_of(cells, cells[i as int]) == i);
        i = i + 1;
    }
    assert(!has_repeated(cells));
    if find_column(header, "alias") == header.len() || find_column(header, "address")
        == header.len() || find_column(header, "username") == header.len() {
        return Some("the columns alias, address and username are needed");
    }
    None
}

/// If a cell holds an array as it is written, the texts in it are read.
pub open spec fn reads_back(cell: Seq<char>) -> bool {
    forall|list: Seq<Seq<char>>|
        cell == #[trigger] array_text(list) ==> array_in(cell) == Some(list)
}

fn read_tags(cell: &str) -> (r: Option<Vec<String>>)
    ensures
        reads_back(cell@),
        match r {
            Some(tags) => if cell@.len() == 0 {
                tags@.len() == 0
            } else {
                array_in(cell@) == Some(texts(tags@))
            },
            None => cell@.len() > 0 && array_in(cell@) is None,
        },
{
    proof {
        reveal_strlit("[");
    }
    if cell.is_empty() {
        Some(Vec::new())
    } else {
        read_array(cell)
    }
}

/// What is wrong with a row but for its tags.
pub open spec fn plain_fault(header: Seq<Seq<char>>, row: Seq<Seq<char>>) -> Option<Seq<char>> {
    let port = cell_of(header, row, "port"@);
    let protocol = cell_of(header, row, "protocol"@);
    let auth = cell_of(header, row, "ssh_auth"@);
    if row.len() != header.len() {
        Some("it has another number of cells than the header"@)
    } else if port.len() > 0 && port_of(port) is None {
        Some("the port is not a number up to 65535"@)
    } else if protocol.len() > 0 && protocol_named(protocol) is None {
        Some("the protocol is neither ssh nor telnet"@)
    } else if auth.len() > 0 && auth_named(auth) is None {
        Some("the way of logging in is unknown"@)
    } else {
        None
    }
}

/// What is wrong with a row, if anything is.
pub open spec fn row_fault(header: Seq<Seq<char>>, row: Seq<Seq<char>>) -> Option<Seq<char>> {
    let tags = cell_of(header, row, "tags"@);
    if plain_fault(header, row) is Some {
        plain_fault(header, row)
    } else if tags.len() > 0 && array_in(tags) is None {
        Some("the tags are not a JSON array of texts"@)
    } else {
        None
    }
}

/// The host in a row; empty cells leave the defaults.
pub open spec fn row_item(header: Seq<Seq<char>>, row: Seq<Seq<char>>) -> ImportModel {
    let port = cell_of(header, row, "port"@);
    let protocol = cell_of(header, row, "protocol"@);
    let auth = cell_of(header, row, "ssh_auth"@);
    let tags = cell_of(header, row, "tags"@);
    ImportModel {
        alias: cell_of(header, row, "alias"@),
        address: cell_of(header, row, "address"@),
        port: if port.len() == 0 {
            None
        } else {
            port_of(port)
        },
        username: cell_of(header, row, "username"@),
        protocol: if protocol.len() == 0 {
            Protocol::Ssh
        } else {
            protocol_named(protocol)->0
        },
        ssh_auth: if auth.len() == 0 {
            SshAuth::Password
        } else {
            auth_named(auth)->0
        },
        private_key_path: cell_of(header, row, "private_key_path"@),
        jump_host: Some(cell_of(header, row, "jump_host"@)),
        description: cell_of(header, row, "description"@),
        tags: if tags.len() == 0 {
            Seq::empty()
        } else {
            array_in(tags)->0
        },
    }
}

fn read_item(header: &Vec<String>, row: &Vec<String>) -> (r: Result<ImportHost, &'static str>)
    ensures
        match r {
            Ok(item) => row_fault(texts(header@), texts(row@)) is None && item@ == row_item(
                texts(header@),
                texts(row@),
            ),
            Err(reason) => row_fault(texts(header@), texts(row@)) == Some(reason@),
        },
        reads_back(cell_of(texts(header@), texts(row@), "tags"@)),
{
    let tags_read = read_tags(find_cell(header, row, "tags"));
    assert(texts(header@).len() == header@.len() && texts(row@).len() == row@.len());
    if row.len() != header.len() {
        return Err("it has another number of cells than the header");
    }
    let port_cell = find_cell(header, row, "port");
    let protocol_cell = find_cell(header, row, "protocol");
    let auth_cell = find_cell(header, row, "ssh_auth");
    let port: Option<u16> = if port_cell.is_empty() {
        None
    } else {
        match parse_port(port_cell) {
            None => {
                return Err("the port is not a number up to 65535");
            },
            found => found,
        }
    };
    let protocol = if protocol_cell.is_empty() {
        Protocol::Ssh
    } else {
        match parse_protocol(protocol_cell) {
            None => {
                return Err("the protocol is neither ssh nor telnet");
            },
            Some(found) => found,
        }
    };
    let ssh_auth = if auth_cell.is_empty() {
        SshAuth::Password
    } else {
        match parse_auth(auth_cell) {
            None => {
                return Err("the way of logging in is unknown");
            },
            Some(found) => found,
        }
    };
    let tags = match tags_read {
        None => {
            return Err("the tags are not a JSON array of texts");
        },
        Some(found) => found,
    };
    let item = ImportHost {
        alias: find_cell(header, row, "alias").to_owned(),
        address: find_cell(header, row, "address").to_owned(),
        port,
        username: find_cell(header, row, "username").to_owned(),
        protocol,
        ssh_auth,
        private_key_path: find_cell(header, row, "private_key_path").to_owned(),
        jump_host: Some(find_cell(header, row, "jump_host").to_owned()),
        description: find_cell(header, row, "description").to_owned(),
        tags,
    };
    assert(item@.tags =~= row_item(texts(header@), texts(row@)).tags);
    Ok(item)
}

/// The text of a file, without the mark of its encoding.
pub open spec fn sheet_text(bytes: Seq<u8>) -> Seq<char> {
    let text = vstd::utf8::decode_utf8(bytes);
    if text.len() > 0 && text[0] == '\u{feff}' {
        text.skip(1)
    } else {
        text
    }
}

/// The first row of a table, which names the columns.
pub open spec fn header_of(rows: Seq<Seq<Seq<char>>>) -> Seq<Seq<char>> {
    if rows.len() == 0 {
        Seq::empty()
    } else {
        rows[0]
    }
}

pub open spec fn faulty_row(rows: Seq<Seq<Seq<char>>>, i: int) -> bool {
    1 <= i < rows.len() && row_fault(rows[0], rows[i]) is Some
}

pub open spec fn first_faulty_row(rows: Seq<Seq<Seq<char>>>, i: int) -> bool {
    faulty_row(rows, i) && forall|j: int| 1 <= j < i ==> !(#[trigger] faulty_row(rows, j))
}

/// The hosts in the rows behind the header.
pub open spec fn sheet_items(rows: Seq<Seq<Seq<char>>>) -> Seq<ImportModel> {
    Seq::new((rows.len() - 1) as nat, |i: int| row_item(rows[0], rows[i + 1]))
}

/// Hosts that were read, and whether secrets came with them.
pub struct ImportBatch {
    pub hosts: Vec<ImportedHost>,
    pub contains_sensitive_values: bool,
}

pub open spec fn profiles(hosts: Seq<ImportedHost>) -> Seq<ProfileModel> {
    Seq::new(hosts.len(), |i: int| hosts[i].profile@)
}

/// A host has the secrets of its row.
pub open spec fn has_secrets_of(
    host: ImportedHost,
    header: Seq<Seq<char>>,
    row: Seq<Seq<char>>,
) -> bool {
    host.password@ == cell_of(header, row, "password"@) && host.key_passphrase@ == cell_of(
        header,
        row,
        "key_passphrase"@,
    )
}

pub open spec fn brings_secret(host: ImportedHost) -> bool {
    host.password@.len() > 0 || host.key_passphrase@.len() > 0
}

pub open spec fn batch_outcome(result: Result<ImportBatch, ImportError>) -> Result<
    Seq<ProfileModel>,
    ImportErrorModel,
> {
    match result {
        Ok(batch) => Ok(profiles(batch.hosts@)),
        Err(error) => Err(error@),
    }
}

/// What comes of a table.
pub open spec fn table_outcome(
    existing: Seq<ProfileModel>,
    rows: Seq<Seq<Seq<char>>>,
    result: Result<ImportBatch, ImportError>,
) -> bool {
    let header = header_of(rows);
    if header_fault(header) is Some {
        result matches Err(error) && error@ == (ImportErrorModel::Row {
            row: 1,
            reason: header_fault(header)->0,
        })
    } else if exists|i: int| #[trigger] faulty_row(rows, i) {
        result matches Err(error) && exists|i: int| #[trigger]
            first_faulty_row(rows, i) && error@ == (ImportErrorModel::Row {
                row: (i + 1) as nat,
                reason: row_fault(header, rows[i])->0,
            }) && reads_back(cell_of(header, rows[i], "tags"@))
    } else {
        &&& forall|i: int|
            1 <= i < rows.len() ==> reads_back(cell_of(header, #[trigger] rows[i], "tags"@))
        &&& exists|ids: Seq<Id>|
            ids.len() == rows.len() - 1 && (result is Ok ==> all_random(ids))
                && #[trigger] import_outcome(
                existing,
                TEMPLATE_VERSION,
                sheet_items(rows),
                ids,
                batch_outcome(result),
            )
        &&& result matches Ok(batch) ==> {
            &&& batch.hosts@.len() == rows.len() - 1
            &&& forall|i: int|
                0 <= i < batch.hosts@.len() ==> has_secrets_of(
                    #[trigger] batch.hosts@[i],
                    header,
                    rows[i + 1],
                )
            &&& batch.contains_sensitive_values == exists|i: int|
                0 <= i < batch.hosts@.len() && brings_secret(#[trigger] batch.hosts@[i])
        }
    }
}

/// What comes of a CSV file.
pub open spec fn csv_outcome(
    existing: Seq<ProfileModel>,
    bytes: Seq<u8>,
    result: Result<ImportBatch, ImportError>,
) -> bool {
    if !vstd::utf8::valid_utf8(bytes) {
        result matches Err(error) && error@ == ImportErrorModel::Encoding
    } else {
        match rows_in(sheet_text(bytes)) {
            None => result matches Err(error) && error@ == ImportErrorModel::Table,
            Some(rows) => table_outcome(existing, rows, result),
        }
    }
}

fn read_sheet(bytes: &[u8]) -> (r: Result<Vec<Vec<String>>, ImportError>)
    ensures
        match r {
            Ok(rows) => vstd::utf8::valid_utf8(bytes@) && rows_in(sheet_text(bytes@)) == Some(
                row_models(rows@),
            ),
            Err(error) => if vstd::utf8::valid_utf8(bytes@) {
                rows_in(sheet_text(bytes@)) is None && error@ == ImportErrorModel::Table
            } else {
                error@ == ImportErrorModel::Encoding
            },
        },
{
    let text = match read_utf8(bytes) {
        None => {
            return Err(ImportError::Encoding);
        },
        Some(text) => text,
    };
    let chars = chars_of(text.as_str());
    let rows = if chars.len() > 0 && chars[0] == '\u{feff}' {
        let rest = string_of(vstd::slice::slice_subrange(chars.as_slice(), 1, chars.len()));
        assert(rest@ =~= sheet_text(bytes@));
        read_rows(rest.as_str())
    } else {
        read_rows(text.as_str())
    };
    match rows {
        None => Err(ImportError::Table),
        Some(rows) => Ok(rows),
    }
}

fn read_items(rows: &Vec<Vec<String>>) -> (r: Result<Vec<ImportHost>, ImportError>)
    requires
        rows@.len() > 0,
    ensures
        match r {
            Ok(items) => {
                &&& forall|i: int| !(#[trigger] faulty_row(row_models(rows@), i))
                &&& forall|i: int|
                    1 <= i < rows@.len() ==> reads_back(
                        cell_of(row_models(rows@)[0], #[trigger] row_models(rows@)[i], "tags"@),
                    )
                &&& import_models(items@) == sheet_items(row_models(rows@))
            },
            Err(error) => exists|i: int| #[trigger]
                first_faulty_row(row_models(rows@), i) && error@ == (ImportErrorModel::Row {
                    row: (i + 1) as nat,
                    reason: row_fault(row_models(rows@)[0], row_models(rows@)[i])->0,
                }) && reads_back(cell_of(row_models(rows@)[0], row_models(rows@)[i], "tags"@)),
        },
{
    let ghost all = row_models(rows@);
    let mut items: Vec<ImportHost> = Vec::new();
    let mut i: usize = 1;
    while i < rows.len()
        invariant
            1 <= i <= rows@.len(),
            all == row_models(rows@),
            items@.len() == i - 1,
            forall|j: int|
                0 <= j < items@.len() ==> (#[trigger] items@[j])@ == row_item(all[0], all[j + 1]),
            forall|j: int| 1 <= j < i ==> !(#[trigger] faulty_row(all, j)),
            forall|j: int|
                1 <= j < i ==> reads_back(cell_of(all[0], #[trigger] all[j], "tags"@)),
        decreases rows@.len() - i,
    {
        assert(all[0] == texts(rows@[0]@));
        assert(all[i as int] == texts(rows@[i as int]@));
        match read_item(&rows[0], &rows[i]) {
            Err(reason) => {
                assert(first_faulty_row(all, i as int));
                return Err(ImportError::Row { row: i + 1, reason });
            },
            Ok(item) => {
                assert(!faulty_row(all, i as int));
                items.push(item);
            },
        }
        i = i + 1;
    }
    assert(import_models(items@) =~= sheet_items(all));
    Ok(items)
}

fn with_secrets(profiles_read: Vec<HostProfile>, rows: &Vec<Vec<String>>) -> (r: ImportBatch)
    requires
        rows@.len() == profiles_read@.len() + 1,
    ensures
        profiles(r.hosts@) == models(profiles_read@),
        r.hosts@.len() == profiles_read@.len(),
        forall|i: int|
            0 <= i < r.hosts@.len() ==> has_secrets_of(
                #[trigger] r.hosts@[i],
                row_models(rows@)[0],
                row_models(rows@)[i + 1],
            ),
        r.contains_sensitive_values == exists|i: int|
            0 <= i < r.hosts@.len() && brings_secret(#[trigger] r.hosts@[i]),
{
    let ghost all = row_models(rows@);
    let mut hosts: Vec<ImportedHost> = Vec::new();
    let mut sensitive = false;
    let mut i: usize = 0;
    while i < profiles_read.len()
        invariant
            i <= profiles_read@.len(),
            rows@.len() == profiles_read@.len() + 1,
            all == row_models(rows@),
            hosts@.len() == i,
            forall|j: int|
                0 <= j < i ==> (#[trigger] hosts@[j]).profile@ == profiles_read@[j]@,
            forall|j: int|
                0 <= j < i ==> has_secrets_of(#[trigger] hosts@[j], all[0], all[j + 1]),
            sensitive == exists|j: int| 0 <= j < i && brings_secret(#[trigger] hosts@[j]),
        decreases profiles_read@.len() - i,
    {
        assert(all[0] == texts(rows@[0]@));
        assert(all[i + 1] == texts(rows@[i + 1]@));
        let host = ImportedHost {
            profile: profiles_read[i].clone(),
            password: Secret::new(find_cell(&rows[0], &rows[i + 1], "password").to_owned()),
            key_passphrase: Secret::new(
                find_cell(&rows[0], &rows[i + 1], "key_passphrase").to_owned(),
            ),
        };
        let ghost before = hosts@;
        let brings = !host.password.as_str().is_empty() || !host.key_passphrase.as_str().is_empty();
        assert(brings == brings_secret(host));
        hosts.push(host);
        proof {
            assert(forall|j: int| 0 <= j < i ==> hosts@[j] == before[j]);
            if sensitive {
                let j = choose|j: int| 0 <= j < i && brings_secret(#[trigger] before[j]);
                assert(brings_secret(hosts@[j]));
            }
            if brings {
                assert(brings_secret(hosts@[i as int]));
            }
        }
        sensitive = sensitive || brings;
        i = i + 1;
    }
    assert(profiles(hosts@) =~= models(profiles_read@));
    ImportBatch { hosts, contains_sensitive_values: sensitive }
}

/// The hosts of a CSV file, under fresh identities, with the secrets that the file brings. The
/// columns `alias`, `address` and `username` are needed, all others may be missing; one bad row
/// refuses the whole file.
pub fn parse_csv(bytes: &[u8], existing: &[HostProfile]) -> (r: Result<ImportBatch, ImportError>)
    ensures
        csv_outcome(models(existing@), bytes@, r),
{
    let rows = match read_sheet(bytes) {
        Err(error) => {
            return Err(error);
        },
        Ok(rows) => rows,
    };
    let ghost all = row_models(rows@);
    if rows.len() == 0 {
        let empty: Vec<String> = Vec::new();
        assert(texts(empty@) =~= header_of(all));
        assert(header_fault(header_of(all)) is Some) by {
            assert(!has_unknown(header_of(all)));
            assert(!has_repeated(header_of(all)));
        }
        if let Some(reason) = check_header(&empty) {
            return Err(ImportError::Row { row: 1, reason });
        }
    }
    if let Some(reason) = check_header(&rows[0]) {
        assert(header_of(all) == texts(rows@[0]@));
        return Err(ImportError::Row { row: 1, reason });
    }
    assert(header_of(all) == texts(rows@[0]@));
    let items = match read_items(&rows) {
        Err(error) => {
            proof {
                let i = choose|i: int| #[trigger]
                    first_faulty_row(all, i) && error@ == (ImportErrorModel::Row {
                        row: (i + 1) as nat,
                        reason: row_fault(all[0], all[i])->0,
                    }) && reads_back(cell_of(all[0], all[i], "tags"@));
                assert(faulty_row(all, i));
            }
            return Err(error);
        },
        Ok(items) => items,
    };
    let ghost entries = import_models(items@);
    assert(items@.len() == entries.len());
    let template = HostImportTemplate { version: TEMPLATE_VERSION, hosts: items };
    match parse_template(template, existing) {
        Err(error) => Err(error),
        Ok(found) => {
            proof {
                let ids = choose|ids: Seq<Id>|
                    ids.len() == entries.len() && all_random(ids) && #[trigger] import_outcome(
                        models(existing@),
                        TEMPLATE_VERSION,
                        entries,
                        ids,
                        Ok(models(found@)),
                    );
                lemma_outcome_length(
                    models(existing@),
                    TEMPLATE_VERSION,
                    entries,
                    ids,
                    models(found@),
                );
                assert(found@.len() == models(found@).len());
            }
            let batch = with_secrets(found, &rows);
            Ok(batch)
        },
    }
}

/// The cell is empty, or holds an array as it is written.
pub open spec fn holds_tags(cell: Seq<char>) -> bool {
    cell.len() == 0 || exists|list: Seq<Seq<char>>| cell == #[trigger] array_text(list)
}

/// A CSV file whose rows are in order, with their tags in arrays as they are written, is refused
/// only where its hosts cannot be imported.
pub proof fn sound_rows_are_imported(
    existing: Seq<ProfileModel>,
    rows: Seq<Seq<Seq<char>>>,
    result: Result<ImportBatch, ImportError>,
)
    requires
        table_outcome(existing, rows, result),
        header_fault(header_of(rows)) is None,
        forall|i: int|
            1 <= i < rows.len() ==> plain_fault(rows[0], #[trigger] rows[i]) is None && holds_tags(
                cell_of(rows[0], rows[i], "tags"@),
            ),
    ensures
        exists|ids: Seq<Id>|
            ids.len() == rows.len() - 1 && #[trigger] import_outcome(
                existing,
                TEMPLATE_VERSION,
                sheet_items(rows),
                ids,
                batch_outcome(result),
            ),
{
    if exists|i: int| #[trigger] faulty_row(rows, i) {
        let i = choose|i: int| #[trigger]
            first_faulty_row(rows, i) && reads_back(cell_of(rows[0], rows[i], "tags"@));
        assert(faulty_row(rows, i));
        assert(plain_fault(rows[0], rows[i]) is None);
        assert(false);
    }
}

/// A host of a CSV file has the description in its row, and the tags: none where the cell is empty
/// or the column is missing, else those of the JSON array.
pub proof fn rows_bring_descriptions_and_tags(
    existing: Seq<ProfileModel>,
    rows: Seq<Seq<Seq<char>>>,
    result: Result<ImportBatch, ImportError>,
    i: int,
    tags: Seq<Seq<char>>,
)
    requires
        table_outcome(existing, rows, result),
        result is Ok,
        0 <= i < rows.len() - 1,
    ensures
        result->Ok_0.hosts@.len() == rows.len() - 1,
        ({
            let host = result->Ok_0.hosts@[i].profile@;
            let cell = cell_of(rows[0], rows[i + 1], "tags"@);
            &&& host.description == cell_of(rows[0], rows[i + 1], "description"@)
            &&& cell.len() == 0 ==> host.tags.len() == 0
            &&& cell == array_text(tags) ==> host.tags == normalized(tags)
        }),
{
    let batch = result->Ok_0;
    let items = sheet_items(rows);
    let hosts = profiles(batch.hosts@);
    let ids = choose|ids: Seq<Id>|
        ids.len() == rows.len() - 1 && #[trigger] import_outcome(
            existing,
            TEMPLATE_VERSION,
            items,
            ids,
            batch_outcome(result),
        );
    imported_hosts_are_sound(existing, TEMPLATE_VERSION, items, ids, hosts, i);
    assert(items[i] == row_item(rows[0], rows[i + 1]));
    assert(hosts[i] == batch.hosts@[i].profile@);
    assert(reads_back(cell_of(rows[0], rows[i + 1], "tags"@)));
    reveal_strlit("[");
}

/// The alias of the jump host, if it is stored.
pub open spec fn jump_cell(host: ProfileModel, hosts: Seq<ProfileModel>) -> Seq<char> {
    match jump_alias(host, hosts) {
        Some(alias) => alias,
        None => Seq::empty(),
    }
}

/// The row of a host. There is no secret in it.
pub open spec fn host_row(host: ProfileModel, hosts: Seq<ProfileModel>) -> Seq<Seq<char>> {
    seq![
        host.alias,
        host.address,
        decimal(host.port as nat),
        host.username,
        host.protocol.name(),
        host.ssh_auth.name(),
        host.private_key_path,
        jump_cell(host, hosts),
        host.description,
        array_text(host.tags),
    ]
}

/// A header, and a row for each host.
pub open spec fn host_rows(
    chosen: Seq<ProfileModel>,
    hosts: Seq<ProfileModel>,
) -> Seq<Seq<Seq<char>>> {
    seq![columns()] + Seq::new(chosen.len(), |i: int| host_row(chosen[i], hosts))
}

/// The entry that a host reads back as.
pub open spec fn entry_of(host: ProfileModel, hosts: Seq<ProfileModel>) -> ImportModel {
    ImportModel {
        alias: host.alias,
        address: host.address,
        port: Some(host.port),
        username: host.username,
        protocol: host.protocol,
        ssh_auth: host.ssh_auth,
        private_key_path: host.private_key_path,
        jump_host: Some(jump_cell(host, hosts)),
        description: host.description,
        tags: host.tags,
    }
}

proof fn lemma_columns()
    ensures
        column_of(columns(), "alias"@) == 0,
        column_of(columns(), "address"@) == 1,
        column_of(columns(), "port"@) == 2,
        column_of(columns(), "username"@) == 3,
        column_of(columns(), "protocol"@) == 4,
        column_of(columns(), "ssh_auth"@) == 5,
        column_of(columns(), "private_key_path"@) == 6,
        column_of(columns(), "jump_host"@) == 7,
        column_of(columns(), "description"@) == 8,
        column_of(columns(), "tags"@) == 9,
{
    lemma_column(0);
    lemma_column(1);
    lemma_column(2);
    lemma_column(3);
    lemma_column(4);
    lemma_column(5);
    lemma_column(6);
    lemma_column(7);
    lemma_column(8);
    lemma_column(9);
}

proof fn lemma_names_differ(i: int, j: int)
    requires
        0 <= i < j < columns().len(),
    ensures
        columns()[i] != columns()[j],
{
    reveal_strlit("alias");
    reveal_strlit("address");
    reveal_strlit("port");
    reveal_strlit("username");
    reveal_strlit("protocol");
    reveal_strlit("ssh_auth");
    reveal_strlit("private_key_path");
    reveal_strlit("jump_host");
    reveal_strlit("description");
    reveal_strlit("tags");
    let names = columns();
    assert(names[0].len() == 5 && names[1].len() == 7 && names[2].len() == 4);
    assert(names[3].len() == 8 && names[4].len() == 8 && names[5].len() == 8);
    assert(names[6].len() == 16 && names[7].len() == 9 && names[8].len() == 11);
    assert(names[9].len() == 4);
    assert(names[2][0] == 'p' && names[9][0] == 't');
    assert(names[3][0] == 'u' && names[4][0] == 'p' && names[5][0] == 's');
}

proof fn lemma_first_place(header: Seq<Seq<char>>, at: int)
    requires
        0 <= at < header.len(),
        forall|i: int| 0 <= i < at ==> (#[trigger] header[i]) != header[at],
    ensures
        column_of(header, header[at]) == at,
    decreases header.len(),
{
    if at > 0 {
        let rest = header.skip(1);
        assert(header[0] != header[at]);
        assert(forall|i: int| 0 <= i < rest.len() ==> #[trigger] rest[i] == header[i + 1]);
        lemma_first_place(rest, at - 1);
    }
}

proof fn lemma_column(at: int)
    requires
        0 <= at < columns().len(),
    ensures
        column_of(columns(), columns()[at]) == at,
{
    assert forall|i: int| 0 <= i < at implies (#[trigger] columns()[i]) != columns()[at] by {
        lemma_names_differ(i, at);
    }
    lemma_first_place(columns(), at);
}

proof fn lemma_names_read_back(protocol: Protocol, auth: SshAuth)
    ensures
        protocol_named(protocol.name()) == Some(protocol),
        auth_named(auth.name()) == Some(auth),
        protocol.name().len() > 0,
        auth.name().len() > 0,
{
    reveal_strlit("ssh");
    reveal_strlit("telnet");
    reveal_strlit("password");
    reveal_strlit("private_key");
    reveal_strlit("private-key");
    reveal_strlit("fido");
    reveal_strlit("fido-handle");
    reveal_strlit("fido_handle");
    reveal_strlit("ssh_agent");
    reveal_strlit("ssh-agent");
    reveal_strlit("agent");
    assert("ssh"@.len() == 3 && "telnet"@.len() == 6);
    assert("private_key"@[1] != "fido-handle"@[1]);
    assert("private_key"@[7] != "private-key"@[7]);
    assert("ssh_agent"@[3] != "ssh-agent"@[3]);
}

proof fn lemma_header_in_order()
    ensures
        header_fault(columns()) is None,
{
    lemma_columns();
    let header = columns();
    assert forall|i: int| 0 <= i < header.len() implies is_column(#[trigger] header[i]) by {}
    assert forall|i: int| 0 <= i < header.len() implies column_of(header, #[trigger] header[i])
        == i by {
        lemma_column(i);
    }
}

/// A row that was written reads back, once its tags do.
proof fn lemma_row_reads_back(host: ProfileModel, hosts: Seq<ProfileModel>)
    requires
        array_in(array_text(host.tags)) == Some(host.tags),
    ensures
        row_fault(columns(), host_row(host, hosts)) is None,
        row_item(columns(), host_row(host, hosts)) == entry_of(host, hosts),
{
    lemma_columns();
    lemma_names_read_back(host.protocol, host.ssh_auth);
    lemma_port_reads(host.port);
    reveal_strlit("[");
    assert(array_text(host.tags).len() > 0);
}

/// The entries that hosts read back as.
pub open spec fn entries_of(
    chosen: Seq<ProfileModel>,
    hosts: Seq<ProfileModel>,
) -> Seq<ImportModel> {
    Seq::new(chosen.len(), |i: int| entry_of(chosen[i], hosts))
}

/// Hosts that were exported are imported with everything but their identity, their trust and their
/// tuning, unless they cannot be imported where they are.
pub proof fn exported_hosts_are_imported(
    existing: Seq<ProfileModel>,
    chosen: Seq<ProfileModel>,
    hosts: Seq<ProfileModel>,
    result: Result<ImportBatch, ImportError>,
)
    requires
        table_outcome(existing, host_rows(chosen, hosts), result),
    ensures
        exists|ids: Seq<Id>|
            ids.len() == chosen.len() && #[trigger] import_outcome(
                existing,
                TEMPLATE_VERSION,
                entries_of(chosen, hosts),
                ids,
                batch_outcome(result),
            ),
{
    let rows = host_rows(chosen, hosts);
    lemma_header_in_order();
    lemma_columns();
    assert forall|i: int| 1 <= i < rows.len() implies plain_fault(rows[0], #[trigger] rows[i])
        is None && holds_tags(cell_of(rows[0], rows[i], "tags"@)) by {
        let host = chosen[i - 1];
        assert(rows[i] == host_row(host, hosts));
        lemma_names_read_back(host.protocol, host.ssh_auth);
        lemma_port_reads(host.port);
        assert(cell_of(rows[0], rows[i], "tags"@) == array_text(host.tags));
    }
    sound_rows_are_imported(existing, rows, result);
    assert forall|i: int| 0 <= i < chosen.len() implies #[trigger] sheet_items(rows)[i] == entry_of(
        chosen[i],
        hosts,
    ) by {
        let host = chosen[i];
        assert(rows[i + 1] == host_row(host, hosts));
        assert(!faulty_row(rows, i + 1)) by {
            if faulty_row(rows, i + 1) {
                let j = choose|j: int| #[trigger]
                    first_faulty_row(rows, j) && reads_back(cell_of(rows[0], rows[j], "tags"@));
                assert(faulty_row(rows, j));
                assert(plain_fault(rows[0], rows[j]) is None);
            }
        }
        assert(cell_of(rows[0], rows[i + 1], "tags"@) == array_text(host.tags));
        assert(reads_back(cell_of(rows[0], rows[i + 1], "tags"@)));
        lemma_row_reads_back(host, hosts);
    }
    assert(sheet_items(rows) =~= entries_of(chosen, hosts));
}

fn write_host(host: &HostProfile, hosts: &[HostProfile]) -> (r: Vec<String>)
    ensures
        texts(r@) == host_row(host@, models(hosts@)),
{
    let jump = match find_jump_alias(host, hosts) {
        None => String::new(),
        Some(alias) => alias,
    };
    assert(jump@ =~= jump_cell(host@, models(hosts@)));
    let mut row: Vec<String> = Vec::new();
    row.push(host.alias.clone());
    row.push(host.address.clone());
    row.push(decimal_string(host.port as u64));
    row.push(host.username.clone());
    row.push(host.protocol.stable_name().to_owned());
    row.push(host.ssh_auth.stable_name().to_owned());
    row.push(host.private_key_path.clone());
    row.push(jump);
    row.push(host.description.clone());
    row.push(write_array(&host.tags));
    assert(texts(row@) =~= host_row(host@, models(hosts@)));
    row
}

fn write_header() -> (r: Vec<String>)
    ensures
        texts(r@) == columns(),
{
    let mut row: Vec<String> = Vec::new();
    row.push("alias".to_owned());
    row.push("address".to_owned());
    row.push("port".to_owned());
    row.push("username".to_owned());
    row.push("protocol".to_owned());
    row.push("ssh_auth".to_owned());
    row.push("private_key_path".to_owned());
    row.push("jump_host".to_owned());
    row.push("description".to_owned());
    row.push("tags".to_owned());
    assert(texts(row@) =~= columns());
    row
}

/// Writes hosts as a CSV file; their jump hosts are named by the alias that they have in the store.
pub fn export_bytes(chosen: &[HostProfile], hosts: &[HostProfile]) -> (r: String)
    ensures
        r@ == table_text(host_rows(models(chosen@), models(hosts@))),
        rows_in(r@) == Some(host_rows(models(chosen@), models(hosts@))),
{
    let ghost known = models(hosts@);
    let ghost all = host_rows(models(chosen@), known);
    let mut rows: Vec<Vec<String>> = Vec::new();
    rows.push(write_header());
    let mut i: usize = 0;
    assert(row_models(rows@) =~= all.take(1));
    while i < chosen.len()
        invariant
            i <= chosen@.len(),
            known == models(hosts@),
            all == host_rows(models(chosen@), known),
            row_models(rows@) == all.take(i + 1),
        decreases chosen@.len() - i,
    {
        let row = write_host(&chosen[i], hosts);
        let ghost before = row_models(rows@);
        rows.push(row);
        proof {
            assert(row_models(rows@) =~= before.push(texts(row@)));
            assert(all[i + 1] == host_row(models(chosen@)[i as int], known));
            assert(all.take(i + 2) =~= all.take(i + 1).push(all[i + 1]));
        }
        i = i + 1;
    }
    assert(all.take(i + 1) =~= all);
    proof {
        assert forall|k: int| 0 <= k < all.len() implies (#[trigger] all[k]).len() > 0 by {
            if k > 0 {
                assert(all[k] == host_row(models(chosen@)[k - 1], known));
            }
        }
        tables_round_trip(all);
    }
    write_rows(&rows)
}

/// The hosts with these identities, in the order of the store.
pub open spec fn chosen_hosts(hosts: Seq<ProfileModel>, ids: Seq<Id>) -> Seq<ProfileModel> {
    hosts.filter(|host: ProfileModel| ids.contains(host.id))
}

fn pick_hosts(hosts: &[HostProfile], ids: &Vec<Id>) -> (r: Vec<HostProfile>)
    ensures
        models(r@) == chosen_hosts(models(hosts@), ids@),
{
    let ghost all = models(hosts@);
    let ghost keep = |host: ProfileModel| ids@.contains(host.id);
    let mut out: Vec<HostProfile> = Vec::new();
    let mut i: usize = 0;
    assert(models(out@) =~= all.take(0).filter(keep)) by {
        reveal(Seq::filter);
    }
    while i < hosts.len()
        invariant
            i <= hosts@.len(),
            all == models(hosts@),
            keep == (|host: ProfileModel| ids@.contains(host.id)),
            models(out@) == all.take(i as int).filter(keep),
        decreases hosts@.len() - i,
    {
        assert(all.take(i + 1).drop_last() =~= all.take(i as int));
        assert(all.take(i + 1).last() == hosts@[i as int]@);
        reveal(Seq::filter);
        if holds_id(ids, hosts[i].id) {
            let ghost so_far = models(out@);
            out.push(hosts[i].clone());
            assert(models(out@) =~= so_far.push(hosts@[i as int]@));
        }
        i = i + 1;
    }
    assert(all.take(i as int) =~= all);
    out
}

/// Writes the hosts with these identities as a CSV file.
pub fn selected_export_bytes(hosts: &[HostProfile], selected: &Vec<Id>) -> (r: String)
    ensures
        r@ == table_text(host_rows(chosen_hosts(models(hosts@), selected@), models(hosts@))),
        rows_in(r@) == Some(
            host_rows(chosen_hosts(models(hosts@), selected@), models(hosts@)),
        ),
{
    let chosen = pick_hosts(hosts, selected);
    export_bytes(chosen.as_slice(), hosts)
}

/// The host that the template shows.
pub open spec fn sample_row() -> Seq<Seq<char>> {
    seq![
        "example"@,
        "server.example.com"@,
        "22"@,
        "operator"@,
        "ssh"@,
        "password"@,
        ""@,
        ""@,
        ""@,
        array_text(seq!["prod"@, "web"@]),
    ]
}

/// The CSV file that users start from.
pub fn csv_template() -> (r: String)
    ensures
        r@ == table_text(seq![columns(), sample_row()]),
        rows_in(r@) == Some(seq![columns(), sample_row()]),
{
    let mut tags: Vec<String> = Vec::new();
    tags.push("prod".to_owned());
    tags.push("web".to_owned());
    assert(texts(tags@) =~= seq!["prod"@, "web"@]);
    let mut row: Vec<String> = Vec::new();
    row.push("example".to_owned());
    row.push("server.example.com".to_owned());
    row.push("22".to_owned());
    row.push("operator".to_owned());
    row.push("ssh".to_owned());
    row.push("password".to_owned());
    row.push("".to_owned());
    row.push("".to_owned());
    row.push("".to_owned());
    row.push(write_array(&tags));
    assert(texts(row@) =~= sample_row());
    let mut rows: Vec<Vec<String>> = Vec::new();
    rows.push(write_header());
    rows.push(row);
    assert(row_models(rows@) =~= seq![columns(), sample_row()]);
    proof {
        let all = seq![columns(), sample_row()];
        assert(all[0] == columns() && all[1] == sample_row());
        tables_round_trip(all);
    }
    write_rows(&rows)
}

proof fn lemma_column_place(header: Seq<Seq<char>>, name: Seq<char>)
    ensures
        0 <= column_of(header, name) <= header.len(),
        column_of(header, name) < header.len() ==> header[column_of(header, name)] == name,
        forall|i: int| 0 <= i < column_of(header, name) ==> (#[trigger] header[i]) != name,
    decreases header.len(),
{
    if header.len() > 0 && header[0] != name {
        let rest = header.skip(1);
        lemma_column_place(rest, name);
        assert forall|i: int| 0 <= i < column_of(header, name) implies (#[trigger] header[i])
            != name by {
            if i > 0 {
                assert(rest[i - 1] == header[i]);
            }
        }
    }
}

proof fn lemma_cell_under(header: Seq<Seq<char>>, row: Seq<Seq<char>>, name: Seq<char>, c: int)
    requires
        header_fault(header) is None,
        row.len() == header.len(),
        0 <= c < header.len(),
        header[c] == name,
    ensures
        cell_of(header, row, name) == row[c],
{
    assert(column_of(header, header[c]) == c);
}

/// A row of a CSV file becomes a host with what stands in its cells: under `alias`, `address`,
/// `username` and `private_key_path` the texts without white space around them, under `port` the
/// number, under `protocol` and `ssh_auth` what they name, under `description` the text as it is,
/// and under `password` and `key_passphrase` the secrets. The place of a column does not matter.
pub proof fn rows_become_the_hosts_they_describe(
    existing: Seq<ProfileModel>,
    rows: Seq<Seq<Seq<char>>>,
    result: Result<ImportBatch, ImportError>,
    i: int,
    c: int,
)
    requires
        table_outcome(existing, rows, result),
        result is Ok,
        0 <= i < rows.len() - 1,
        0 <= c < rows[0].len(),
    ensures
        rows[i + 1].len() == rows[0].len(),
        ({
            let host = result->Ok_0.hosts@[i];
            let cell = rows[i + 1][c];
            let name = rows[0][c];
            &&& name == "alias"@ ==> host.profile.alias@ == trimmed(cell)
            &&& name == "address"@ ==> host.profile.address@ == trimmed(cell)
            &&& name == "username"@ ==> host.profile.username@ == trimmed(cell)
            &&& name == "private_key_path"@ ==> host.profile.private_key_path@ == trimmed(cell)
            &&& name == "description"@ ==> host.profile.description@ == cell
            &&& name == "port"@ && cell.len() > 0 ==> port_of(cell) == Some(host.profile.port)
            &&& name == "protocol"@ && cell == "ssh"@ ==> host.profile.protocol == Protocol::Ssh
            &&& name == "protocol"@ && cell == "telnet"@ ==> host.profile.protocol
                == Protocol::Telnet
            &&& name == "protocol"@ && cell.len() == 0 ==> host.profile.protocol == Protocol::Ssh
            &&& name == "ssh_auth"@ && cell == "password"@ ==> host.profile.ssh_auth
                == SshAuth::Password
            &&& name == "ssh_auth"@ && cell == "private_key"@ ==> host.profile.ssh_auth
                == SshAuth::PrivateKey
            &&& name == "ssh_auth"@ && cell == "ssh_agent"@ ==> host.profile.ssh_auth
                == SshAuth::SshAgent
            &&& name == "password"@ ==> host.password@ == cell
            &&& name == "key_passphrase"@ ==> host.key_passphrase@ == cell
        }),
{
    let batch = result->Ok_0;
    let items = sheet_items(rows);
    let hosts = profiles(batch.hosts@);
    let ids = choose|ids: Seq<Id>|
        ids.len() == rows.len() - 1 && (result is Ok ==> all_random(ids))
            && #[trigger] import_outcome(
            existing,
            TEMPLATE_VERSION,
            items,
            ids,
            batch_outcome(result),
        );
    imported_hosts_are_sound(existing, TEMPLATE_VERSION, items, ids, hosts, i);
    imported_hosts_connect_as_asked(existing, TEMPLATE_VERSION, items, ids, hosts, i);
    assert(items[i] == row_item(rows[0], rows[i + 1]));
    assert(hosts[i] == batch.hosts@[i].profile@);
    assert(!faulty_row(rows, i + 1));
    assert(has_secrets_of(batch.hosts@[i], rows[0], rows[i + 1]));
    lemma_cell_under(rows[0], rows[i + 1], rows[0][c], c);
    lemma_names_read_back(Protocol::Ssh, SshAuth::Password);
    lemma_names_read_back(Protocol::Telnet, SshAuth::PrivateKey);
    lemma_names_read_back(Protocol::Ssh, SshAuth::SshAgent);
}

/// A file that does not say so brings SSH hosts with a password login, at the usual port of their
/// protocol.
pub proof fn missing_columns_leave_the_defaults(
    existing: Seq<ProfileModel>,
    rows: Seq<Seq<Seq<char>>>,
    result: Result<ImportBatch, ImportError>,
    i: int,
)
    requires
        table_outcome(existing, rows, result),
        result is Ok,
        0 <= i < rows.len() - 1,
    ensures
        ({
            let host = result->Ok_0.hosts@[i];
            &&& !rows[0].contains("protocol"@) ==> host.profile.protocol == Protocol::Ssh
            &&& !rows[0].contains("ssh_auth"@) ==> host.profile.ssh_auth == SshAuth::Password
            &&& !rows[0].contains("port"@) && host.profile.protocol == Protocol::Ssh
                ==> host.profile.port == 22
            &&& !rows[0].contains("port"@) && host.profile.protocol == Protocol::Telnet
                ==> host.profile.port == 23
            &&& !rows[0].contains("description"@) ==> host.profile.description@.len() == 0
            &&& !rows[0].contains("tags"@) ==> host.profile.tags@.len() == 0
            &&& !rows[0].contains("jump_host"@) ==> host.profile.jump_host is None
            &&& !rows[0].contains("password"@) ==> host.password@.len() == 0
            &&& !rows[0].contains("key_passphrase"@) ==> host.key_passphrase@.len() == 0
        }),
{
    let batch = result->Ok_0;
    let items = sheet_items(rows);
    let hosts = profiles(batch.hosts@);
    let ids = choose|ids: Seq<Id>|
        ids.len() == rows.len() - 1 && (result is Ok ==> all_random(ids))
            && #[trigger] import_outcome(
            existing,
            TEMPLATE_VERSION,
            items,
            ids,
            batch_outcome(result),
        );
    imported_hosts_are_sound(existing, TEMPLATE_VERSION, items, ids, hosts, i);
    imported_hosts_connect_as_asked(existing, TEMPLATE_VERSION, items, ids, hosts, i);
    imported_hosts_go_through_what_they_name(existing, TEMPLATE_VERSION, items, ids, hosts, i);
    assert(items[i] == row_item(rows[0], rows[i + 1]));
    assert(hosts[i] == batch.hosts@[i].profile@);
    assert(has_secrets_of(batch.hosts@[i], rows[0], rows[i + 1]));
    crate::text::lemma_empty_is_trimmed();
    lemma_column_place(rows[0], "protocol"@);
    lemma_column_place(rows[0], "ssh_auth"@);
    lemma_column_place(rows[0], "port"@);
    lemma_column_place(rows[0], "description"@);
    lemma_column_place(rows[0], "tags"@);
    lemma_column_place(rows[0], "jump_host"@);
    lemma_column_place(rows[0], "password"@);
    lemma_column_place(rows[0], "key_passphrase"@);
    assert(hosts[i].tags == texts(batch.hosts@[i].profile.tags@));
}

/// A host that is exported and imported again has the same connection details, notes and tags: the
/// same address, port, user name, protocol, way of logging in and key file, without white space
/// around the texts; and it starts untrusted.
pub proof fn exported_hosts_keep_their_details(
    existing: Seq<ProfileModel>,
    chosen: Seq<ProfileModel>,
    hosts: Seq<ProfileModel>,
    result: Result<ImportBatch, ImportError>,
    i: int,
)
    requires
        table_outcome(existing, host_rows(chosen, hosts), result),
        result is Ok,
        0 <= i < chosen.len(),
    ensures
        result->Ok_0.hosts@.len() == chosen.len(),
        ({
            let host = result->Ok_0.hosts@[i].profile;
            &&& host.alias@ == trimmed(chosen[i].alias)
            &&& host.address@ == trimmed(chosen[i].address)
            &&& host.port == chosen[i].port
            &&& host.username@ == trimmed(chosen[i].username)
            &&& host.protocol == chosen[i].protocol
            &&& host.ssh_auth == chosen[i].ssh_auth
            &&& host.private_key_path@ == trimmed(chosen[i].private_key_path)
            &&& host.description@ == chosen[i].description
            &&& texts(host.tags@) == normalized(chosen[i].tags)
            &&& chosen[i].jump_host is None ==> host.jump_host is None
            &&& !host.verified
            &&& host.host_fingerprint is None
        }),
        result->Ok_0.hosts@[i].password@.len() == 0,
        result->Ok_0.hosts@[i].key_passphrase@.len() == 0,
{
    let rows = host_rows(chosen, hosts);
    exported_hosts_are_imported(existing, chosen, hosts, result);
    let items = entries_of(chosen, hosts);
    let ids = choose|ids: Seq<Id>|
        ids.len() == chosen.len() && #[trigger] import_outcome(
            existing,
            TEMPLATE_VERSION,
            items,
            ids,
            batch_outcome(result),
        );
    let batch = result->Ok_0;
    let read = profiles(batch.hosts@);
    lemma_outcome_length(existing, TEMPLATE_VERSION, items, ids, read);
    assert(batch.hosts@.len() == chosen.len());
    imported_hosts_are_sound(existing, TEMPLATE_VERSION, items, ids, read, i);
    imported_hosts_connect_as_asked(existing, TEMPLATE_VERSION, items, ids, read, i);
    imported_hosts_go_through_what_they_name(existing, TEMPLATE_VERSION, items, ids, read, i);
    assert(items[i] == entry_of(chosen[i], hosts));
    assert(read[i] == batch.hosts@[i].profile@);
    crate::text::lemma_empty_is_trimmed();
    lemma_header_in_order();
    assert(rows[0] == columns());
    assert(has_secrets_of(batch.hosts@[i], rows[0], rows[i + 1]));
    lemma_no_secret_column("password"@);
    lemma_no_secret_column("key_passphrase"@);
}

proof fn lemma_no_secret_column(name: Seq<char>)
    requires
        name == "password"@ || name == "key_passphrase"@,
    ensures
        column_of(columns(), name) == columns().len(),
{
    lemma_column_place(columns(), name);
    reveal_strlit("password");
    reveal_strlit("key_passphrase");
    reveal_strlit("alias");
    reveal_strlit("address");
    reveal_strlit("port");
    reveal_strlit("username");
    reveal_strlit("protocol");
    reveal_strlit("ssh_auth");
    reveal_strlit("private_key_path");
    reveal_strlit("jump_host");
    reveal_strlit("description");
    reveal_strlit("tags");
    let names = columns();
    let at = column_of(names, name);
    if at < names.len() {
        assert(names[0].len() == 5 && names[1].len() == 7 && names[2].len() == 4);
        assert(names[3].len() == 8 && names[4].len() == 8 && names[5].len() == 8);
        assert(names[6].len() == 16 && names[7].len() == 9 && names[8].len() == 11);
        assert(names[9].len() == 4);
        assert(names[3][0] == 'u' && names[4][1] == 'r' && names[5][0] == 's');
        assert("password"@[0] == 'p' && "password"@[1] == 'a' && "password"@.len() == 8);
        assert("key_passphrase"@.len() == 14);
    }
}

/// An export holds the hosts that were chosen, all of them and no others, in the order of the
/// store.
pub proof fn exports_hold_what_was_chosen(hosts: Seq<ProfileModel>, ids: Seq<Id>, host: ProfileModel)
    ensures
        chosen_hosts(hosts, ids).contains(host) <==> hosts.contains(host) && ids.contains(host.id),
        chosen_hosts(hosts.push(host), ids) == if ids.contains(host.id) {
            chosen_hosts(hosts, ids).push(host)
        } else {
            chosen_hosts(hosts, ids)
        },
{
    lemma_chosen(hosts, ids, host);
    assert(hosts.push(host).drop_last() =~= hosts);
    reveal(Seq::filter);
}

proof fn lemma_chosen(hosts: Seq<ProfileModel>, ids: Seq<Id>, host: ProfileModel)
    ensures
        chosen_hosts(hosts, ids).contains(host) <==> hosts.contains(host) && ids.contains(host.id),
    decreases hosts.len(),
{
    reveal(Seq::filter);
    if hosts.len() > 0 {
        let short = hosts.drop_last();
        let found = chosen_hosts(hosts, ids);
        let before = chosen_hosts(short, ids);
        let last = hosts[hosts.len() - 1];
        lemma_chosen(short, ids, host);
        if found.contains(host) {
            let i = choose|i: int| 0 <= i < found.len() && found[i] == host;
            if i < before.len() {
                assert(before[i] == host);
                let k = choose|k: int| 0 <= k < short.len() && short[k] == host;
                assert(hosts[k] == host);
            } else {
                assert(hosts[hosts.len() - 1] == host);
            }
        }
        if hosts.contains(host) && ids.contains(host.id) {
            let i = choose|i: int| 0 <= i < hosts.len() && hosts[i] == host;
            if i < short.len() {
                assert(short[i] == host);
                let k = choose|k: int| 0 <= k < before.len() && before[k] == host;
                assert(found[k] == host);
            } else {
                assert(found[before.len() as int] == host);
            }
        }
    }
}

/// A file is refused where it is not UTF-8 or no table; and the mark of its encoding is no part of
/// the table.
pub proof fn unreadable_files_are_refused(
    existing: Seq<ProfileModel>,
    bytes: Seq<u8>,
    result: Result<ImportBatch, ImportError>,
)
    requires
        csv_outcome(existing, bytes, result),
    ensures
        !vstd::utf8::valid_utf8(bytes) ==> result is Err && result->Err_0@
            == ImportErrorModel::Encoding,
        vstd::utf8::valid_utf8(bytes) && rows_in(sheet_text(bytes)) is None ==> result is Err
            && result->Err_0@ == ImportErrorModel::Table,
        vstd::utf8::decode_utf8(bytes).len() > 0 && vstd::utf8::decode_utf8(bytes)[0]
            == '\u{feff}' ==> sheet_text(bytes) == vstd::utf8::decode_utf8(bytes).skip(1),
        vstd::utf8::decode_utf8(bytes).len() > 0 && vstd::utf8::decode_utf8(bytes)[0]
            != '\u{feff}' ==> sheet_text(bytes) == vstd::utf8::decode_utf8(bytes),
{
}

/// A row is refused for a cell that cannot be read: a port, a protocol or a way of logging in that
/// does not exist, or a number of cells that is not that of the header.
pub proof fn bad_cells_are_refused(header: Seq<Seq<char>>, row: Seq<Seq<char>>)
    ensures
        row.len() != header.len() ==> row_fault(header, row) is Some,
        cell_of(header, row, "port"@).len() > 0 && port_of(cell_of(header, row, "port"@)) is None
            ==> row_fault(header, row) is Some,
        cell_of(header, row, "protocol"@).len() > 0 && protocol_named(
            cell_of(header, row, "protocol"@),
        ) is None ==> row_fault(header, row) is Some,
        cell_of(header, row, "ssh_auth"@).len() > 0 && auth_named(
            cell_of(header, row, "ssh_auth"@),
        ) is None ==> row_fault(header, row) is Some,
        row.len() == header.len() && cell_of(header, row, "port"@).len() == 0 && cell_of(
            header,
            row,
            "protocol"@,
        ).len() == 0 && cell_of(header, row, "ssh_auth"@).len() == 0 && cell_of(
            header,
            row,
            "tags"@,
        ).len() == 0 ==> row_fault(header, row) is None,
{
}

} // verus!
