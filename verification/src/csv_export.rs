//! The result exporter: an in-memory zip archive holding the
//! parameters document, an optional plot image, and the per-tick
//! table with its derived turning radius.
//!
//! Building the table and the documents is verified code; only the
//! calls into the `zip` crate stand behind trusted wrappers, whose
//! contracts track the archive's entries.

use vstd::prelude::*;
use vstd::string::*;
use crate::fixed::{fdivq, fmul, fx_div, fx_mul, in_i64};
use crate::missile::MissileSpec;
use crate::numeric::{fixed_bytes, render_fixed};
use crate::params_doc::{params_doc_bytes, render_params};
use crate::runner::LaunchResults;

verus! {

/// The table's header row
/// (`acceleration;velocity;distance_traveled;turn_radius`).
pub open spec fn csv_header() -> Seq<u8> {
    seq![0x61u8, 0x63u8, 0x63u8, 0x65u8, 0x6Cu8, 0x65u8, 0x72u8, 0x61u8, 0x74u8, 0x69u8,
        0x6Fu8, 0x6Eu8, 0x3Bu8, 0x76u8, 0x65u8, 0x6Cu8, 0x6Fu8, 0x63u8, 0x69u8, 0x74u8, 0x79u8,
        0x3Bu8, 0x64u8, 0x69u8, 0x73u8, 0x74u8, 0x61u8, 0x6Eu8, 0x63u8, 0x65u8, 0x5Fu8, 0x74u8,
        0x72u8, 0x61u8, 0x76u8, 0x65u8, 0x6Cu8, 0x65u8, 0x64u8, 0x3Bu8, 0x74u8, 0x75u8, 0x72u8,
        0x6Eu8, 0x5Fu8, 0x72u8, 0x61u8, 0x64u8, 0x69u8, 0x75u8, 0x73u8, 0x0Au8]
}

/// The turning radius a row derives from its velocity:
/// `v^2 / reqaccelmax`.
pub open spec fn turn_radius_spec(v: i64, reqaccelmax: i64) -> int {
    fdivq(fmul(v as int, v as int), reqaccelmax as int)
}

/// One semicolon-separated table row, newline terminated.
pub open spec fn csv_row(a: i64, v: i64, d: i64, reqaccelmax: i64) -> Seq<u8> {
    fixed_bytes(a as int) + seq![0x3Bu8] + fixed_bytes(v as int) + seq![0x3Bu8] + fixed_bytes(
        d as int) + seq![0x3Bu8] + fixed_bytes(turn_radius_spec(v, reqaccelmax)) + seq![0x0Au8]
}

/// The header and the first `n` rows of the table.
pub open spec fn csv_rows(a: Seq<i64>, v: Seq<i64>, d: Seq<i64>, reqaccelmax: i64, n: nat) -> Seq<
    u8,
>
    decreases n,
{
    if n == 0 {
        csv_header()
    } else {
        csv_rows(a, v, d, reqaccelmax, (n - 1) as nat) + csv_row(a[n - 1], v[n - 1], d[n - 1],
            reqaccelmax)
    }
}

/// Whether every row's squared velocity and turning radius stay in
/// the fixed-point range.
pub open spec fn rows_fit(v: Seq<i64>, reqaccelmax: i64) -> bool {
    forall|i: int|
        #![trigger v[i]]
        0 <= i < v.len() ==> in_i64(fmul(v[i] as int, v[i] as int)) && in_i64(
            turn_radius_spec(v[i], reqaccelmax),
        )
}

/// Executable copy of [`csv_header`].
fn csv_header_bytes() -> (r: Vec<u8>)
    ensures
        r@ == csv_header(),
{
    let mut out: Vec<u8> = Vec::new();
    out.push(0x61);
    out.push(0x63);
    out.push(0x63);
    out.push(0x65);
    out.push(0x6C);
    out.push(0x65);
    out.push(0x72);
    out.push(0x61);
    out.push(0x74);
    out.push(0x69);
    out.push(0x6F);
    out.push(0x6E);
    out.push(0x3B);
    out.push(0x76);
    out.push(0x65);
    out.push(0x6C);
    out.push(0x6F);
    out.push(0x63);
    out.push(0x69);
    out.push(0x74);
    out.push(0x79);
    out.push(0x3B);
    out.push(0x64);
    out.push(0x69);
    out.push(0x73);
    out.push(0x74);
    out.push(0x61);
    out.push(0x6E);
    out.push(0x63);
    out.push(0x65);
    out.push(0x5F);
    out.push(0x74);
    out.push(0x72);
    out.push(0x61);
    out.push(0x76);
    out.push(0x65);
    out.push(0x6C);
    out.push(0x65);
    out.push(0x64);
    out.push(0x3B);
    out.push(0x74);
    out.push(0x75);
    out.push(0x72);
    out.push(0x6E);
    out.push(0x5F);
    out.push(0x72);
    out.push(0x61);
    out.push(0x64);
    out.push(0x69);
    out.push(0x75);
    out.push(0x73);
    out.push(0x0A);
    proof {
        assert(out@ =~= csv_header());
    }
    out
}

/// Renders one table row from its prepared fields.
fn render_row(a: i64, v: i64, d: i64, radius: i64, reqaccelmax: i64) -> (r: Vec<u8>)
    requires
        radius == turn_radius_spec(v, reqaccelmax),
    ensures
        r@ == csv_row(a, v, d, reqaccelmax),
{
    let mut out = render_fixed(a);
    out.push(0x3B);
    let mut part = render_fixed(v);
    out.append(&mut part);
    out.push(0x3B);
    let mut part = render_fixed(d);
    out.append(&mut part);
    out.push(0x3B);
    let mut part = render_fixed(radius);
    out.append(&mut part);
    out.push(0x0A);
    proof {
        assert(out@ =~= csv_row(a, v, d, reqaccelmax));
    }
    out
}

/// Derives each row's turning radius: `Some` exactly when every
/// squared velocity and radius stays in the fixed-point range.
fn compute_radii(v: &Vec<i64>, reqaccelmax: i64) -> (r: Option<Vec<i64>>)
    requires
        reqaccelmax > 0,
    ensures
        r is Some <==> rows_fit(v@, reqaccelmax),
        r is Some ==> r->0@.len() == v@.len() && forall|j: int|
            0 <= j < v@.len() ==> r->0@[j] == turn_radius_spec(v@[j], reqaccelmax),
{
    let mut out: Vec<i64> = Vec::new();
    let mut i: usize = 0;
    while i < v.len()
        invariant
            reqaccelmax > 0,
            0 <= i <= v@.len(),
            out@.len() == i,
            forall|j: int| 0 <= j < i ==> out@[j] == turn_radius_spec(v@[j], reqaccelmax),
            forall|j: int|
                #![trigger v@[j]]
                0 <= j < i ==> in_i64(fmul(v@[j] as int, v@[j] as int)) && in_i64(
                    turn_radius_spec(v@[j], reqaccelmax),
                ),
        decreases v@.len() - i,
    {
        let v2: i64 = match fx_mul(v[i], v[i]) {
            Some(x) => x,
            None => {
                proof {
                    let vi = v@[i as int];
                    assert(!rows_fit(v@, reqaccelmax)) by {
                        if rows_fit(v@, reqaccelmax) {
                            assert(in_i64(fmul(vi as int, vi as int)) && in_i64(
                                turn_radius_spec(vi, reqaccelmax)));
                        }
                    }
                }
                return None;
            },
        };
        let radius: i64 = match fx_div(v2, reqaccelmax) {
            Some(x) => x,
            None => {
                proof {
                    let vi = v@[i as int];
                    assert(!rows_fit(v@, reqaccelmax)) by {
                        if rows_fit(v@, reqaccelmax) {
                            assert(in_i64(fmul(vi as int, vi as int)) && in_i64(
                                turn_radius_spec(vi, reqaccelmax)));
                        }
                    }
                }
                return None;
            },
        };
        proof {
            assert(radius == turn_radius_spec(v@[i as int], reqaccelmax));
        }
        out.push(radius);
        i = i + 1;
    }
    Some(out)
}

/// Renders the per-tick table: `Some` exactly when the maximal
/// lateral acceleration is positive and every derived radius fits.
pub fn render_csv(a: &Vec<i64>, v: &Vec<i64>, d: &Vec<i64>, reqaccelmax: i64) -> (r: Option<
    Vec<u8>,
>)
    requires
        a@.len() == v@.len(),
        d@.len() == v@.len(),
    ensures
        r is Some <==> reqaccelmax > 0 && rows_fit(v@, reqaccelmax),
        r is Some ==> r->0@ == csv_rows(a@, v@, d@, reqaccelmax, v@.len() as nat),
{
    if reqaccelmax <= 0 {
        return None;
    }
    let radii: Vec<i64> = match compute_radii(v, reqaccelmax) {
        Some(x) => x,
        None => {
            return None;
        },
    };
    let mut out: Vec<u8> = csv_header_bytes();
    let mut i: usize = 0;
    while i < v.len()
        invariant
            a@.len() == v@.len(),
            d@.len() == v@.len(),
            radii@.len() == v@.len(),
            forall|j: int|
                0 <= j < v@.len() ==> radii@[j] == turn_radius_spec(v@[j], reqaccelmax),
            0 <= i <= v@.len(),
            out@ == csv_rows(a@, v@, d@, reqaccelmax, i as nat),
        decreases v@.len() - i,
    {
        let mut row = render_row(a[i], v[i], d[i], radii[i], reqaccelmax);
        out.append(&mut row);
        i = i + 1;
    }
    Some(out)
}

/// The writer assembling the export archive in memory. Verus sees
/// the `zip` crate's writer only through this opaque holder and the
/// trusted wrappers below, so every value of this type arises from
/// [`zip_new`] and the wrappers' mutations.
#[verifier::external_body]
pub struct MissileZipWriter {
    inner: zip::write::ZipWriter<std::io::Cursor<Vec<u8>>>,
}

/// The entries the writer holds so far: the stored name and
/// accumulated raw contents of each, in the order they were started.
pub uninterp spec fn zip_entries(w: MissileZipWriter) -> Seq<(Seq<char>, Seq<u8>)>;

/// Whether the writer is inside an open file entry that can take
/// bytes.
pub uninterp spec fn zip_writing(w: MissileZipWriter) -> bool;

/// The finished archive bytes of a sequence of entries, as the `zip`
/// crate lays them out with stored compression and fixed metadata.
/// Directory entries are the ones whose name ends in a slash — the
/// wrappers below enforce that discipline — so the bytes are a
/// function of the entries alone, per build.
pub uninterp spec fn zip_bytes_of(entries: Seq<(Seq<char>, Seq<u8>)>) -> Seq<u8>;

/// No accumulated entry carries this name.
pub open spec fn name_fresh(entries: Seq<(Seq<char>, Seq<u8>)>, name: Seq<char>) -> bool {
    forall|i: int| 0 <= i < entries.len() ==> (#[trigger] entries[i]).0 != name
}

/// Relies on `zip::write::ZipWriter::new` over an empty in-memory
/// cursor: a fresh archive holds no entries and no open file.
#[verifier::external_body]
fn zip_new() -> (w: MissileZipWriter)
    ensures
        zip_entries(w) == Seq::<(Seq<char>, Seq<u8>)>::empty(),
        !zip_writing(w),
{
    MissileZipWriter { inner: zip::write::ZipWriter::new(std::io::Cursor::new(vec![])) }
}

/// Relies on `zip::write::ZipWriter::add_directory` with stored
/// compression and the fixed epoch timestamp. The name must end in a
/// slash: the crate appends one otherwise, and the trailing slash is
/// what marks the entry as a directory. On success the named
/// directory is appended as an empty entry and no file is left open.
/// Success is owed when the name is fresh and short: on an in-memory
/// cursor the call's only refusals are a duplicate name and a name
/// over the format's 64 KiB field, and a character encodes to at most
/// four bytes, so sixteen thousand characters stay under it.
#[verifier::external_body]
fn zip_add_directory(w: &mut MissileZipWriter, name: &str) -> (ok: bool)
    requires
        name@.len() > 0,
        name@.last() == '/',
    ensures
        ok ==> zip_entries(*final(w)) == zip_entries(*old(w)).push((name@, Seq::<u8>::empty()))
            && !zip_writing(*final(w)),
        name_fresh(zip_entries(*old(w)), name@) && name@.len() <= 16000 ==> ok,
{
    let opts: zip::write::SimpleFileOptions = zip::write::SimpleFileOptions::default()
        .compression_method(zip::CompressionMethod::Stored)
        .last_modified_time(zip::DateTime::default());
    w.inner.add_directory(name, opts).is_ok()
}

/// Relies on `zip::write::ZipWriter::start_file` with stored
/// compression and the fixed epoch timestamp. The name must not end
/// in a slash or backslash, which would make the stored entry look
/// like a directory. On success a new empty entry of that name is
/// appended and opened for writing; any previously open entry is
/// closed with its contents intact. Success is owed under the same
/// freshness and length conditions as for the directory wrapper.
#[verifier::external_body]
fn zip_start_file(w: &mut MissileZipWriter, name: &str) -> (ok: bool)
    requires
        name@.len() > 0,
        name@.last() != '/',
        name@.last() != '\\',
    ensures
        ok ==> zip_entries(*final(w)) == zip_entries(*old(w)).push((name@, Seq::<u8>::empty()))
            && zip_writing(*final(w)),
        name_fresh(zip_entries(*old(w)), name@) && name@.len() <= 16000 ==> ok,
{
    let opts: zip::write::SimpleFileOptions = zip::write::SimpleFileOptions::default()
        .compression_method(zip::CompressionMethod::Stored)
        .last_modified_time(zip::DateTime::default());
    w.inner.start_file(name, opts).is_ok()
}

/// Relies on `std::io::Write::write_all` on the zip writer: the
/// bytes land at the end of the open entry. The entry must stay at
/// or below the format's 4 GiB stored threshold — crossing it is the
/// write path's only refusal besides a missing open entry, and it
/// would leave bytes in the cursor while dropping the entry, so
/// callers bound their data in verified code instead. Below the
/// threshold, on an in-memory cursor, the call cannot fail.
#[verifier::external_body]
fn zip_write_all(w: &mut MissileZipWriter, data: &[u8]) -> (ok: bool)
    requires
        zip_writing(*old(w)),
        zip_entries(*old(w)).len() > 0,
        zip_entries(*old(w)).last().1.len() + data@.len() <= 0xFFFF_FFFF,
    ensures
        ok,
        zip_entries(*final(w)) == zip_entries(*old(w)).update(
            zip_entries(*old(w)).len() - 1,
            (zip_entries(*old(w)).last().0, zip_entries(*old(w)).last().1 + data@),
        ),
        zip_writing(*final(w)),
{
    std::io::Write::write_all(&mut w.inner, data).is_ok()
}

/// Relies on `zip::write::ZipWriter::finish` and
/// `std::io::Cursor::into_inner`. For the writers these wrappers can
/// produce — stored compression, no encryption, an in-memory cursor,
/// names within the format's limits, writes within the stored-size
/// threshold — `finish` has no failing path: all its writes go to
/// the infallible cursor, so the bytes are owed. Every refusal of
/// the other wrappers happens before anything reaches the cursor, so
/// the cursor holds exactly the entries' data; with fixed timestamps
/// and default permissions throughout, and the
/// directory-by-trailing-slash discipline above, the finished bytes
/// are a function of the entries alone, named [`zip_bytes_of`].
#[verifier::external_body]
fn zip_finish(w: MissileZipWriter) -> (r: Option<Vec<u8>>)
    ensures
        r is Some,
        r->0@ == zip_bytes_of(zip_entries(w)),
{
    match w.inner.finish() {
        Ok(cursor) => Some(cursor.into_inner()),
        Err(_) => None,
    }
}

/// The view of an optional borrowed image.
pub open spec fn plot_view(plot: Option<&[u8]>) -> Option<Seq<u8>> {
    match plot {
        Some(img) => Some(img@),
        None => None,
    }
}

/// The directory entry's name: the missile's name and a slash.
pub open spec fn dir_entry_name(name: Seq<char>) -> Seq<char> {
    name + "/"@
}

/// The parameters document's entry name.
pub open spec fn params_entry_name(name: Seq<char>) -> Seq<char> {
    name + "/launch_parameters.toml"@
}

/// The plot image's entry name.
pub open spec fn png_entry_name(name: Seq<char>) -> Seq<char> {
    name + "/data_plot.png"@
}

/// The per-tick table's entry name.
pub open spec fn table_entry_name(name: Seq<char>) -> Seq<char> {
    name + "/plot.csv"@
}

/// None of the archive's entry names is taken in the writer yet.
pub open spec fn archive_names_fresh(entries: Seq<(Seq<char>, Seq<u8>)>, name: Seq<char>) -> bool {
    &&& name_fresh(entries, dir_entry_name(name))
    &&& name_fresh(entries, params_entry_name(name))
    &&& name_fresh(entries, png_entry_name(name))
    &&& name_fresh(entries, table_entry_name(name))
}

/// The entries an export archive holds: the missile's directory, the
/// parameters document, the optional plot image, and the per-tick
/// table.
pub open spec fn archive_entries(
    res: LaunchResults,
    plot: Option<Seq<u8>>,
    missile: MissileSpec,
) -> Seq<(Seq<char>, Seq<u8>)> {
    let dir = (dir_entry_name(missile.name@), Seq::<u8>::empty());
    let params = (params_entry_name(missile.name@), params_doc_bytes(res.parameters));
    let table = (table_entry_name(missile.name@), csv_rows(res.profile.a@, res.profile.v@,
        res.profile.d@, missile.reqaccelmax, res.profile.v@.len() as nat));
    match plot {
        Some(img) => seq![dir, params, (png_entry_name(missile.name@), img), table],
        None => seq![dir, params, table],
    }
}

/// Everything an in-memory export needs to go through whole: a
/// positive lateral-acceleration limit, radii in range, a missile
/// name short enough for the format's name field, and entries at or
/// below its stored-size threshold. The name bound counts characters
/// and stays conservatively under the format's byte limit.
pub open spec fn export_ready(
    res: LaunchResults,
    plot: Option<Seq<u8>>,
    missile: MissileSpec,
) -> bool {
    &&& missile.reqaccelmax > 0
    &&& rows_fit(res.profile.v@, missile.reqaccelmax)
    &&& missile.name@.len() <= 15000
    &&& csv_rows(res.profile.a@, res.profile.v@, res.profile.d@, missile.reqaccelmax,
        res.profile.v@.len() as nat).len() <= 0xFFFF_FFFF
    &&& (plot is Some ==> plot->0.len() <= 0xFFFF_FFFF)
}

impl LaunchResults {
    /// Writes the archive's entries into the writer: the directory,
    /// the parameters document, the optional image, and the table.
    /// `Some` only when every entry went in whole, so a failure never
    /// leaves a partially written archive unreported — and `Some` is
    /// owed whenever the export is ready and its entry names are
    /// fresh in the writer.
    #[verifier::rlimit(100)]
    #[verifier::spinoff_prover]
    pub fn write_into_zip(
        &self,
        plot: Option<&[u8]>,
        missile: &MissileSpec,
        zip: &mut MissileZipWriter,
    ) -> (r: Option<()>)
        requires
            self.profile.a@.len() == self.profile.v@.len(),
            self.profile.d@.len() == self.profile.v@.len(),
        ensures
            r is Some ==> zip_entries(*final(zip)) == zip_entries(*old(zip)) + archive_entries(
                *self,
                plot_view(plot),
                *missile,
            ),
            !(missile.reqaccelmax > 0 && rows_fit(self.profile.v@, missile.reqaccelmax))
                ==> r is None,
            export_ready(*self, plot_view(plot), *missile) && archive_names_fresh(
                zip_entries(*old(zip)),
                missile.name@,
            ) ==> r is Some,
    {
        let ghost entries0 = zip_entries(*old(zip));
        let ghost nm = missile.name@;
        let ghost ready = export_ready(*self, plot_view(plot), *missile) && archive_names_fresh(
            entries0,
            nm,
        );
        proof {
            reveal_strlit("/");
            reveal_strlit("/launch_parameters.toml");
            reveal_strlit("/data_plot.png");
            reveal_strlit("/plot.csv");
            assert(dir_entry_name(nm).len() == nm.len() + 1);
            assert(params_entry_name(nm).len() == nm.len() + 23);
            assert(png_entry_name(nm).len() == nm.len() + 14);
            assert(table_entry_name(nm).len() == nm.len() + 9);
        }
        let csv: Vec<u8> = match render_csv(&self.profile.a, &self.profile.v, &self.profile.d,
            missile.reqaccelmax) {
            Some(x) => x,
            None => {
                return None;
            },
        };
        if csv.len() > 0xFFFF_FFFF {
            return None;
        }
        match plot {
            Some(img) => {
                if img.len() > 0xFFFF_FFFF {
                    return None;
                }
            },
            None => {},
        }
        let dir_name_s: String = missile.name.clone().concat("/");
        proof {
            assert(dir_name_s@ == dir_entry_name(nm));
            if ready {
                assert(name_fresh(zip_entries(*zip), dir_name_s@));
                assert(dir_name_s@.len() <= 16000);
            }
        }
        if !zip_add_directory(zip, dir_name_s.as_str()) {
            return None;
        }
        let ghost entries1 = zip_entries(*zip);
        let params_name_s: String = missile.name.clone().concat("/launch_parameters.toml");
        proof {
            assert(params_name_s@ == params_entry_name(nm));
            if ready {
                assert(name_fresh(entries1, params_name_s@)) by {
                    assert(entries1 == entries0.push((dir_entry_name(nm),
                        Seq::<u8>::empty())));
                    assert forall|i: int|
                        0 <= i < entries1.len() implies (#[trigger] entries1[i]).0
                        != params_entry_name(nm) by {
                        if i < entries0.len() {
                            assert(entries1[i] == entries0[i]);
                        } else {
                            assert(entries1[i].0 == dir_entry_name(nm));
                        }
                    }
                }
                assert(params_name_s@.len() <= 16000);
            }
        }
        if !zip_start_file(zip, params_name_s.as_str()) {
            return None;
        }
        let ghost entries2 = zip_entries(*zip);
        let doc: Vec<u8> = render_params(&self.parameters);
        proof {
            crate::params_doc::lemma_params_doc_len(self.parameters);
            assert(entries2.last().1.len() == 0);
        }
        if !zip_write_all(zip, doc.as_slice()) {
            return None;
        }
        let ghost entries3 = zip_entries(*zip);
        proof {
            assert(entries3 =~= entries0.push((dir_entry_name(nm), Seq::<u8>::empty())).push(
                (params_entry_name(nm), params_doc_bytes(self.parameters))));
        }
        match plot {
            Some(img) => {
                let img_name_s: String = missile.name.clone().concat("/data_plot.png");
                proof {
                    assert(img_name_s@ == png_entry_name(nm));
                    if ready {
                        assert(name_fresh(entries3, img_name_s@)) by {
                            assert forall|i: int|
                                0 <= i < entries3.len() implies (#[trigger] entries3[i]).0
                                != png_entry_name(nm) by {
                                if i < entries0.len() {
                                    assert(entries3[i] == entries0[i]);
                                } else if i == entries0.len() {
                                    assert(entries3[i].0 == dir_entry_name(nm));
                                } else {
                                    assert(entries3[i].0 == params_entry_name(nm));
                                }
                            }
                        }
                        assert(img_name_s@.len() <= 16000);
                    }
                }
                if !zip_start_file(zip, img_name_s.as_str()) {
                    return None;
                }
                proof {
                    assert(zip_entries(*zip).last().1.len() == 0);
                }
                if !zip_write_all(zip, img) {
                    return None;
                }
                proof {
                    assert(zip_entries(*zip) =~= entries3.push((png_entry_name(nm), img@)));
                }
            },
            None => {},
        }
        let ghost entries4 = zip_entries(*zip);
        let table_name_s: String = missile.name.clone().concat("/plot.csv");
        proof {
            assert(table_name_s@ == table_entry_name(nm));
            if ready {
                assert(name_fresh(entries4, table_name_s@)) by {
                    assert forall|i: int|
                        0 <= i < entries4.len() implies (#[trigger] entries4[i]).0
                        != table_entry_name(nm) by {
                        if i < entries0.len() {
                            assert(entries4[i] == entries0[i]);
                        } else if i == entries0.len() {
                            assert(entries4[i].0 == dir_entry_name(nm));
                        } else if i == entries0.len() + 1 {
                            assert(entries4[i].0 == params_entry_name(nm));
                        } else {
                            assert(entries4[i].0 == png_entry_name(nm));
                        }
                    }
                }
                assert(table_name_s@.len() <= 16000);
            }
        }
        if !zip_start_file(zip, table_name_s.as_str()) {
            return None;
        }
        proof {
            assert(zip_entries(*zip).last().1.len() == 0);
        }
        if !zip_write_all(zip, csv.as_slice()) {
            return None;
        }
        proof {
            assert(zip_entries(*zip) =~= zip_entries(*old(zip)) + archive_entries(*self,
                plot_view(plot), *missile));
        }
        Some(())
    }

    /// Opens a fresh in-memory archive and writes all entries into
    /// it: `Some` is owed whenever the export is ready, since every
    /// name is fresh in an empty archive.
    pub fn start_csv(&self, plot: Option<&[u8]>, missile: &MissileSpec) -> (r: Option<
        MissileZipWriter,
    >)
        requires
            self.profile.a@.len() == self.profile.v@.len(),
            self.profile.d@.len() == self.profile.v@.len(),
        ensures
            r is Some ==> zip_entries(r->0) == archive_entries(*self, plot_view(plot), *missile),
            !(missile.reqaccelmax > 0 && rows_fit(self.profile.v@, missile.reqaccelmax))
                ==> r is None,
            export_ready(*self, plot_view(plot), *missile) ==> r is Some,
    {
        let mut zip = zip_new();
        match self.write_into_zip(plot, missile, &mut zip) {
            Some(_) => {
                proof {
                    assert(zip_entries(zip) =~= archive_entries(*self, plot_view(plot),
                        *missile));
                }
                Some(zip)
            },
            None => None,
        }
    }

    /// Closes the archive and hands its bytes out.
    pub fn finish_zip(zip: MissileZipWriter) -> (r: Option<Vec<u8>>)
        ensures
            r is Some,
            r->0@ == zip_bytes_of(zip_entries(zip)),
    {
        zip_finish(zip)
    }

    /// Builds the whole export archive in memory: `Some` bytes hold
    /// exactly the entries of [`archive_entries`], zipped, and `Some`
    /// is owed whenever the export is ready.
    pub fn as_csv(&self, plot: Option<&[u8]>, missile: &MissileSpec) -> (r: Option<Vec<u8>>)
        requires
            self.profile.a@.len() == self.profile.v@.len(),
            self.profile.d@.len() == self.profile.v@.len(),
        ensures
            r is Some ==> r->0@ == zip_bytes_of(archive_entries(*self, plot_view(plot),
                *missile)),
            !(missile.reqaccelmax > 0 && rows_fit(self.profile.v@, missile.reqaccelmax))
                ==> r is None,
            export_ready(*self, plot_view(plot), *missile) ==> r is Some,
    {
        match self.start_csv(plot, missile) {
            Some(zip) => Self::finish_zip(zip),
            None => None,
        }
    }
}

} // verus!
