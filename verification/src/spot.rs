//! Spots received from a cluster server: their kind, the filter that decides
//! which are kept, and where a kept spot is written.

use vstd::prelude::*;

use crate::configuration::{Configuration, Filter, Type};

verus! {

/// The kind of a parsed spot; a DX spot carries its frequency in Hz.
#[derive(Clone, Copy, PartialEq, Eq, Structural, Debug)]
pub enum SpotKind {
    DX { freq: u64 },
    WX,
    WWV,
    WCY,
    ToAll,
    ToLocal,
}

/// A spot as the parser gives it: its kind and its JSON form.
pub struct ParsedSpot {
    pub kind: SpotKind,
    pub json: String,
}

/// A kept spot: the entry to write, and the channels to write it to.
pub struct SpotOutput {
    pub entry: String,
    pub console: bool,
    pub file: bool,
}

/// The name of the amateur radio band that holds `freq` (in Hz), if any, as
/// `hambands::search::get_band_for_frequency` finds it.
pub uninterp spec fn band_of_frequency(freq: u64) -> Option<Seq<char>>;

/// The kind of the spot that `dxclparser::parse` reads from `line`, if it reads one.
pub uninterp spec fn spot_kind_of_line(line: Seq<char>) -> Option<SpotKind>;

/// The JSON form (`Spot::to_json`) of the spot that `dxclparser::parse` reads from `line`.
pub uninterp spec fn spot_json_of_line(line: Seq<char>) -> Seq<char>;

/// Whether the type filter keeps spots of kind `kind`.
pub open spec fn kind_enabled(t: Type, kind: SpotKind) -> bool {
    match kind {
        SpotKind::DX { .. } => t.dx,
        SpotKind::WX => t.wx,
        SpotKind::WWV => t.wwv,
        SpotKind::WCY => t.wcy,
        SpotKind::ToAll => t.toall,
        SpotKind::ToLocal => t.tolocal,
    }
}

/// Whether the band filter keeps a DX spot on band `band` (`None`: the
/// frequency lies in no band, and the spot is never kept). An empty list of
/// bands keeps a spot on any band.
pub open spec fn band_enabled(bands: Seq<Seq<char>>, band: Option<Seq<char>>) -> bool {
    band matches Some(b) && (bands.len() == 0 || bands.contains(b))
}

/// Whether the filter keeps a spot of kind `kind`, the band of a DX spot
/// being `band`. The band filter applies to DX spots only.
pub open spec fn filter_keeps(filter: Filter, kind: SpotKind, band: Option<Seq<char>>) -> bool {
    kind_enabled(filter.spot_type, kind) && (kind is DX ==> band_enabled(filter.band.deep_view(), band))
}

/// Whether the filter keeps a spot of kind `kind`.
pub open spec fn spot_accepted(filter: Filter, kind: SpotKind) -> bool {
    match kind {
        SpotKind::DX { freq } => filter_keeps(filter, kind, band_of_frequency(freq)),
        _ => filter_keeps(filter, kind, None),
    }
}

/// The band that holds `freq` (in Hz).
///
/// Trusted: calls `hambands::search::get_band_for_frequency`, which walks a
/// fixed table of bands and returns the first whose range holds `freq`, or an
/// error when none does; the contract says only that the result is the band
/// name that this lookup gives for `freq`.
#[verifier::external_body]
fn band_name_for_frequency(freq: u64) -> (r: Option<String>)
    ensures
        r.deep_view() == band_of_frequency(freq),
{
    hambands::search::get_band_for_frequency(freq).ok().map(|band| band.name.to_string())
}

/// Parses a line received from a cluster server.
///
/// Trusted: calls `dxclparser::parse`, and `Spot::to_json` on the spot it
/// returns; the contract says that the kind and the JSON form are those of
/// the spot that the parser reads from `line`, and that there is a spot
/// exactly when the parser reads one.
#[verifier::external_body]
fn parse_spot(line: &str) -> (r: Option<ParsedSpot>)
    ensures
        r is Some <==> spot_kind_of_line(line@) is Some,
        r matches Some(p) ==> spot_kind_of_line(line@) == Some(p.kind) && p.json@
            == spot_json_of_line(line@),
{
    match dxclparser::parse(line) {
        Ok(spot) => {
            let kind = match &spot {
                dxclparser::Spot::DX(dx) => SpotKind::DX { freq: dx.freq },
                dxclparser::Spot::WX(_) => SpotKind::WX,
                dxclparser::Spot::WWV(_) => SpotKind::WWV,
                dxclparser::Spot::WCY(_) => SpotKind::WCY,
                dxclparser::Spot::ToAll(_) => SpotKind::ToAll,
                dxclparser::Spot::ToLocal(_) => SpotKind::ToLocal,
            };
            Some(ParsedSpot { kind, json: spot.to_json() })
        },
        Err(_) => None,
    }
}

/// Whether `list` holds a string equal to `item`.
fn list_contains(list: &Vec<String>, item: &String) -> (r: bool)
    ensures
        r == list.deep_view().contains(item@),
{
    let mut i: usize = 0;
    while i < list.len()
        invariant
            i <= list.len(),
            forall|j: int| 0 <= j < i ==> list.deep_view()[j] != item@,
        decreases list.len() - i,
    {
        if list[i] == *item {
            assert(list.deep_view()[i as int] == item@);
            return true;
        }
        i = i + 1;
    }
    false
}

/// Whether the type filter keeps spots of kind `kind`.
pub fn kind_passes(t: &Type, kind: SpotKind) -> (r: bool)
    ensures
        r == kind_enabled(*t, kind),
{
    match kind {
        SpotKind::DX { .. } => t.dx,
        SpotKind::WX => t.wx,
        SpotKind::WWV => t.wwv,
        SpotKind::WCY => t.wcy,
        SpotKind::ToAll => t.toall,
        SpotKind::ToLocal => t.tolocal,
    }
}

/// Whether the band filter keeps a spot on band `band`.
pub fn band_passes(bands: &Vec<String>, band: &Option<String>) -> (r: bool)
    ensures
        r == band_enabled(bands.deep_view(), band.deep_view()),
{
    match band {
        Some(b) => bands.len() == 0 || list_contains(bands, b),
        None => false,
    }
}

/// Whether the filter keeps a spot of kind `kind` whose band (for a DX spot)
/// is `band`.
pub fn spot_passes(filter: &Filter, kind: SpotKind, band: &Option<String>) -> (r: bool)
    ensures
        r == filter_keeps(*filter, kind, band.deep_view()),
{
    let type_ok = kind_passes(&filter.spot_type, kind);
    let band_ok = match kind {
        SpotKind::DX { .. } => band_passes(&filter.band, band),
        _ => true,
    };
    type_ok && band_ok
}

/// Why the filter keeps or drops a spot.
#[derive(Clone, Copy, PartialEq, Eq, Structural, Debug)]
pub enum FilterVerdict {
    /// The spot is kept.
    Keep,
    /// Spots of this kind are not wanted.
    KindDisabled,
    /// A DX spot on a band that is not listed.
    BandNotListed,
    /// A DX spot whose frequency lies in no band.
    NoBand,
}

/// The verdict on a spot of kind `kind` whose band (for a DX spot) is `band`.
/// A DX spot that cannot be matched to any band is reported as such, before
/// its kind is looked at, since it is an invalid spot.
pub open spec fn verdict_for(filter: Filter, kind: SpotKind, band: Option<Seq<char>>) -> FilterVerdict {
    if kind is DX && band is None {
        FilterVerdict::NoBand
    } else if !kind_enabled(filter.spot_type, kind) {
        FilterVerdict::KindDisabled
    } else if kind is DX && !band_enabled(filter.band.deep_view(), band) {
        FilterVerdict::BandNotListed
    } else {
        FilterVerdict::Keep
    }
}

/// The verdict of the filter on a spot of kind `kind`.
pub open spec fn spot_verdict(filter: Filter, kind: SpotKind) -> FilterVerdict {
    match kind {
        SpotKind::DX { freq } => verdict_for(filter, kind, band_of_frequency(freq)),
        _ => verdict_for(filter, kind, None),
    }
}

/// What becomes of a line received from a cluster server.
pub enum LineOutcome {
    /// The line is not a spot.
    Unparsable,
    /// The spot of kind `kind` is dropped, for the reason `verdict`.
    Dropped { kind: SpotKind, verdict: FilterVerdict },
    /// The spot is kept and written as said.
    Kept(SpotOutput),
}

/// The verdict of the filter on a spot of kind `kind` whose band (for a DX
/// spot) is `band`.
pub fn filter_verdict(filter: &Filter, kind: SpotKind, band: &Option<String>) -> (r: FilterVerdict)
    ensures
        r == verdict_for(*filter, kind, band.deep_view()),
{
    let is_dx = match kind {
        SpotKind::DX { .. } => true,
        _ => false,
    };
    if is_dx && band.is_none() {
        FilterVerdict::NoBand
    } else if !kind_passes(&filter.spot_type, kind) {
        FilterVerdict::KindDisabled
    } else if is_dx && !band_passes(&filter.band, band) {
        FilterVerdict::BandNotListed
    } else {
        FilterVerdict::Keep
    }
}

/// The verdict of the configuration's filter on a spot of kind `spot`.
pub fn spot_verdict_of(spot: &SpotKind, config: &Configuration) -> (r: FilterVerdict)
    ensures
        r == spot_verdict(config.filter, *spot),
{
    match *spot {
        SpotKind::DX { freq } => {
            let band = band_name_for_frequency(freq);
            filter_verdict(&config.filter, *spot, &band)
        },
        _ => {
            let none: Option<String> = None;
            filter_verdict(&config.filter, *spot, &none)
        },
    }
}

/// The verdict keeps a spot exactly when the filter keeps it.
pub proof fn lemma_verdict_keeps_as_filter(filter: Filter, kind: SpotKind, band: Option<Seq<char>>)
    ensures
        (verdict_for(filter, kind, band) == FilterVerdict::Keep) == filter_keeps(filter, kind, band),
        (spot_verdict(filter, kind) == FilterVerdict::Keep) == spot_accepted(filter, kind),
{
}

/// Matches a spot against the filter rules of the configuration: its kind
/// must be enabled, and a DX spot must lie on a band, one of the listed
/// ones (an empty list keeps every band).
pub fn match_filter(spot: &SpotKind, config: &Configuration) -> (r: bool)
    ensures
        r == spot_accepted(config.filter, *spot),
{
    let verdict = spot_verdict_of(spot, config);
    proof {
        lemma_verdict_keeps_as_filter(config.filter, *spot, None);
    }
    match verdict {
        FilterVerdict::Keep => true,
        _ => false,
    }
}

/// What becomes of a parsed spot: nothing if there is none; dropped, with the
/// filter's reason; or kept, its JSON form going to the console and the file
/// as the configuration enables them.
pub fn route_spot(config: &Configuration, spot: Option<ParsedSpot>) -> (r: LineOutcome)
    ensures
        spot is None <==> r is Unparsable,
        spot matches Some(p) ==> match r {
            LineOutcome::Unparsable => false,
            LineOutcome::Dropped { kind, verdict } => kind == p.kind && verdict == spot_verdict(
                config.filter,
                p.kind,
            ) && verdict != FilterVerdict::Keep,
            LineOutcome::Kept(o) => spot_verdict(config.filter, p.kind) == FilterVerdict::Keep
                && o.entry@ == p.json@ && o.console == config.output.console && o.file
                == config.output.file.enabled,
        },
{
    match spot {
        None => LineOutcome::Unparsable,
        Some(p) => {
            let verdict = spot_verdict_of(&p.kind, config);
            match verdict {
                FilterVerdict::Keep => LineOutcome::Kept(
                    SpotOutput {
                        entry: p.json,
                        console: config.output.console,
                        file: config.output.file.enabled,
                    },
                ),
                _ => LineOutcome::Dropped { kind: p.kind, verdict },
            }
        },
    }
}

/// Handles a line received from a cluster server: parses it into a spot,
/// matches it against the filter, and says where its JSON form is written,
/// or why it is dropped.
pub fn process_line(config: &Configuration, line: &str) -> (r: LineOutcome)
    ensures
        spot_kind_of_line(line@) is None <==> r is Unparsable,
        spot_kind_of_line(line@) matches Some(k) ==> match r {
            LineOutcome::Unparsable => false,
            LineOutcome::Dropped { kind, verdict } => kind == k && verdict == spot_verdict(
                config.filter,
                k,
            ) && verdict != FilterVerdict::Keep,
            LineOutcome::Kept(o) => spot_verdict(config.filter, k) == FilterVerdict::Keep
                && o.entry@ == spot_json_of_line(line@) && o.console == config.output.console
                && o.file == config.output.file.enabled,
        },
{
    let parsed = parse_spot(line);
    route_spot(config, parsed)
}

/// With an empty list of bands, every spot of an enabled kind is kept,
/// except a DX spot whose frequency lies in no band.
pub proof fn lemma_empty_band_list_keeps_all(filter: Filter, kind: SpotKind)
    requires
        filter.band.len() == 0,
    ensures
        spot_accepted(filter, kind) == (kind_enabled(filter.spot_type, kind) && (kind matches SpotKind::DX { freq } ==> band_of_frequency(freq) is Some)),
{
}

/// The band filter applies to DX spots only: any other spot is kept exactly
/// when its kind is enabled.
pub proof fn lemma_band_filter_only_for_dx(filter: Filter, kind: SpotKind)
    requires
        !(kind is DX),
    ensures
        spot_accepted(filter, kind) == kind_enabled(filter.spot_type, kind),
{
}

/// A DX spot is kept only if its kind is enabled, its frequency lies in a
/// band, and, when bands are listed, that band is one of them.
pub proof fn lemma_dx_needs_listed_band(filter: Filter, freq: u64)
    requires
        spot_accepted(filter, SpotKind::DX { freq }),
    ensures
        filter.spot_type.dx,
        band_of_frequency(freq) is Some,
        filter.band.len() > 0 ==> (band_of_frequency(freq) matches Some(b)
            && filter.band.deep_view().contains(b)),
{
}

/// A DX spot whose frequency lies in no band is never kept.
pub proof fn lemma_dx_without_band_dropped(filter: Filter, freq: u64)
    requires
        band_of_frequency(freq) is None,
    ensures
        !spot_accepted(filter, SpotKind::DX { freq }),
        spot_verdict(filter, SpotKind::DX { freq }) == FilterVerdict::NoBand,
{
}

/// A DX spot is reported as lying in no band exactly when its frequency lies
/// in none of the known bands.
pub proof fn lemma_no_band_reported(filter: Filter, freq: u64)
    ensures
        (spot_verdict(filter, SpotKind::DX { freq }) == FilterVerdict::NoBand) == (
        band_of_frequency(freq) is None),
{
}

/// A DX spot of an enabled kind whose frequency lies on a band is kept when
/// that band is any member of the list (or the list is empty), and dropped as
/// not listed otherwise.
pub proof fn lemma_listed_band_kept(filter: Filter, freq: u64, b: Seq<char>)
    requires
        filter.spot_type.dx,
        band_of_frequency(freq) == Some(b),
    ensures
        filter.band.deep_view().contains(b) ==> spot_accepted(filter, SpotKind::DX { freq })
            && spot_verdict(filter, SpotKind::DX { freq }) == FilterVerdict::Keep,
        filter.band.len() == 0 ==> spot_accepted(filter, SpotKind::DX { freq }),
        filter.band.len() > 0 && !filter.band.deep_view().contains(b) ==> !spot_accepted(
            filter,
            SpotKind::DX { freq },
        ) && spot_verdict(filter, SpotKind::DX { freq }) == FilterVerdict::BandNotListed,
{
}

/// What each verdict means, in terms of the configured flags, the band list
/// and the band of the spot.
pub proof fn lemma_verdict_meaning(filter: Filter, kind: SpotKind)
    ensures
        ({
            let enabled = match kind {
                SpotKind::DX { .. } => filter.spot_type.dx,
                SpotKind::WX => filter.spot_type.wx,
                SpotKind::WWV => filter.spot_type.wwv,
                SpotKind::WCY => filter.spot_type.wcy,
                SpotKind::ToAll => filter.spot_type.toall,
                SpotKind::ToLocal => filter.spot_type.tolocal,
            };
            let band: Option<Seq<char>> = match kind {
                SpotKind::DX { freq } => band_of_frequency(freq),
                _ => None,
            };
            let listed = band matches Some(b) && (filter.band.len() == 0
                || filter.band.deep_view().contains(b));
            &&& (spot_verdict(filter, kind) == FilterVerdict::NoBand) == (kind is DX && band is None)
            &&& (spot_verdict(filter, kind) == FilterVerdict::KindDisabled) == (!(kind is DX
                && band is None) && !enabled)
            &&& (spot_verdict(filter, kind) == FilterVerdict::BandNotListed) == (kind is DX && band
                is Some && enabled && !listed)
            &&& (spot_verdict(filter, kind) == FilterVerdict::Keep) == (enabled && (kind is DX
                ==> listed))
            &&& spot_accepted(filter, kind) == (enabled && (kind is DX ==> listed))
        }),
{
}

} // verus!
