//! Networks of regions and operators, from CSV tables.

use crate::common::IpKey;
use crate::ip::cidr_value;
use crate::ip::parse_cidr;
use crate::node::config::GeoIpConfig;
use crate::outside::csv_records;
use crate::outside::csv_rows;
use crate::outside::fields_of;
use crate::text::chars_of;
use crate::text::dec;
use crate::text::parse_uint;
use crate::text::push_dec;
use crate::text::same_chars;
use crate::text::same_text;
use crate::text::text_of;
use crate::text::texts;
use crate::text::trim;
use crate::text::trimmed;
use crate::text::uint_value;
use crate::text::upper;
use crate::text::uppered;
use vstd::prelude::*;
use vstd::string::StringExecFns;

verus! {

/// A network and why it is listed.
#[derive(Debug)]
pub struct GeoIpBlock {
    pub key: IpKey,
    pub prefix: u32,
    pub reason: String,
}

/// The contents of a [`GeoIpBlock`].
pub struct BlockView {
    pub family: u8,
    pub octets: Seq<u8>,
    pub prefix: u32,
    pub reason: Seq<char>,
}

impl View for GeoIpBlock {
    type V = BlockView;

    open spec fn view(&self) -> BlockView {
        BlockView {
            family: self.key.family,
            octets: self.key.addr@,
            prefix: self.prefix,
            reason: self.reason@,
        }
    }
}

pub open spec fn block_views(v: Seq<GeoIpBlock>) -> Seq<BlockView> {
    v.map_values(|b: GeoIpBlock| b@)
}

/// Why the tables could not be read.
#[derive(Clone, Copy, Debug, PartialEq, Eq, Structural)]
pub enum GeoIpError {
    CountryCsv,
    AsnCsv,
}

/// A network of a table with a reason; none where it is not a network.
pub open spec fn block_of(network: Seq<char>, reason: Seq<char>) -> Option<BlockView> {
    match cidr_value(network) {
        Ok(n) => Some(BlockView { family: n.0, octets: n.1, prefix: n.2, reason }),
        Err(_) => None,
    }
}

/// What belongs to no listed region is dropped.
pub open spec fn drops_rest(c: GeoIpConfig) -> bool {
    c.enabled && c.default_action@ == "drop"@
}

/// Whether a configuration drops what belongs to no listed region.
pub fn drops_unlisted(config: &GeoIpConfig) -> (r: bool)
    ensures
        r == drops_rest(*config),
{
    config.enabled && same_text(config.default_action.as_str(), "drop")
}

pub open spec fn country_reason(kind: Seq<char>, country: Seq<char>) -> Seq<char> {
    "geoip-"@ + kind + "-country-"@ + country
}

pub open spec fn asn_reason(kind: Seq<char>, asn: nat) -> Seq<char> {
    "geoip-"@ + kind + "-asn-"@ + dec(asn)
}

/// One of the wanted countries, whatever the case of its letters.
pub open spec fn wanted(countries: Seq<Seq<char>>, country: Seq<char>) -> bool {
    exists|i: int| 0 <= i < countries.len() && #[trigger] uppered(countries[i]) == country
}

/// What a record of the country table gives: its network, where its country is wanted.
pub open spec fn country_row(
    row: Seq<Seq<char>>,
    countries: Seq<Seq<char>>,
    kind: Seq<char>,
) -> Option<BlockView> {
    let country: Seq<char> = uppered(trimmed(row[1]));
    if row.len() < 2 || !wanted(countries, country) {
        None
    } else {
        block_of(trimmed(row[0]), country_reason(kind, country))
    }
}

/// What a record of the operator table gives: its network, where its operator is wanted.
pub open spec fn asn_row(row: Seq<Seq<char>>, asns: Seq<u32>, kind: Seq<char>) -> Option<BlockView> {
    if row.len() < 2 {
        None
    } else {
        match uint_value(trimmed(row[1]), u32::MAX as nat) {
            Some(n) => if asns.contains(n as u32) {
                block_of(trimmed(row[0]), asn_reason(kind, n))
            } else {
                None
            },
            None => None,
        }
    }
}

/// What is there in a list of which some places are empty, in order.
pub open spec fn blocks_in(list: Seq<Option<BlockView>>) -> Seq<BlockView>
    decreases list.len(),
{
    if list.len() == 0 {
        Seq::empty()
    } else {
        match list.last() {
            Some(b) => blocks_in(list.drop_last()).push(b),
            None => blocks_in(list.drop_last()),
        }
    }
}

/// The networks that records of the country table give.
pub open spec fn country_blocks_of(
    rows: Seq<Seq<Seq<char>>>,
    countries: Seq<Seq<char>>,
    kind: Seq<char>,
) -> Seq<BlockView> {
    blocks_in(rows.map_values(|r: Seq<Seq<char>>| country_row(r, countries, kind)))
}

/// The networks that records of the operator table give.
pub open spec fn asn_blocks_of(rows: Seq<Seq<Seq<char>>>, asns: Seq<u32>, kind: Seq<char>) -> Seq<
    BlockView,
> {
    blocks_in(rows.map_values(|r: Seq<Seq<char>>| asn_row(r, asns, kind)))
}

fn make_block(network: &Vec<char>, reason: String) -> (r: Option<GeoIpBlock>)
    ensures
        match r {
            Some(b) => block_of(network@, reason@) == Some(b@),
            None => block_of(network@, reason@) is None,
        },
{
    match parse_cidr(text_of(network).as_str()) {
        Ok(n) => Some(GeoIpBlock { key: n.0, prefix: n.1, reason }),
        Err(_) => None,
    }
}

fn is_wanted(countries: &Vec<String>, country: &Vec<char>) -> (r: bool)
    ensures
        r == wanted(texts(countries@), country@),
{
    for i in 0..countries.len()
        invariant
            forall|j: int| 0 <= j < i ==> #[trigger] uppered(texts(countries@)[j]) != country@,
    {
        let name: Vec<char> = upper(&chars_of(countries[i].as_str()));
        assert(texts(countries@)[i as int] == countries@[i as int]@);
        if same_chars(&name, country) {
            assert(uppered(texts(countries@)[i as int]) == country@);
            return true;
        }
    }
    false
}

fn country_block(row: &Vec<String>, countries: &Vec<String>, kind: &str) -> (r: Option<GeoIpBlock>)
    ensures
        match r {
            Some(b) => country_row(texts(row@), texts(countries@), kind@) == Some(b@),
            None => country_row(texts(row@), texts(countries@), kind@) is None,
        },
{
    if row.len() < 2 {
        return None;
    }
    assert(texts(row@)[0] == row@[0]@);
    assert(texts(row@)[1] == row@[1]@);
    let network: Vec<char> = trim(&chars_of(row[0].as_str()));
    let country: Vec<char> = upper(&trim(&chars_of(row[1].as_str())));
    if !is_wanted(countries, &country) {
        return None;
    }
    let mut reason: String = String::new();
    reason.append("geoip-");
    reason.append(kind);
    reason.append("-country-");
    reason.append(text_of(&country).as_str());
    assert(reason@ =~= country_reason(kind@, country@));
    make_block(&network, reason)
}

fn asn_block(row: &Vec<String>, asns: &Vec<u32>, kind: &str) -> (r: Option<GeoIpBlock>)
    ensures
        match r {
            Some(b) => asn_row(texts(row@), asns@, kind@) == Some(b@),
            None => asn_row(texts(row@), asns@, kind@) is None,
        },
{
    if row.len() < 2 {
        return None;
    }
    assert(texts(row@)[0] == row@[0]@);
    assert(texts(row@)[1] == row@[1]@);
    let network: Vec<char> = trim(&chars_of(row[0].as_str()));
    let asn: u32 = match parse_uint(&trim(&chars_of(row[1].as_str())), u32::MAX as u64) {
        Some(n) => n as u32,
        None => {
            return None;
        },
    };
    let mut known: bool = false;
    for i in 0..asns.len()
        invariant
            known == exists|j: int| 0 <= j < i && asns@[j] == asn,
    {
        if asns[i] == asn {
            known = true;
        }
    }
    assert(known == asns@.contains(asn));
    if !known {
        return None;
    }
    let mut reason: String = String::new();
    reason.append("geoip-");
    reason.append(kind);
    reason.append("-asn-");
    push_dec(&mut reason, asn as u64);
    assert(reason@ =~= asn_reason(kind@, asn as nat));
    make_block(&network, reason)
}

/// The networks that records of the country table give.
pub fn country_blocks(rows: &Vec<Vec<String>>, countries: &Vec<String>, kind: &str) -> (r: Vec<
    GeoIpBlock,
>)
    ensures
        block_views(r@) == country_blocks_of(fields_of(rows@), texts(countries@), kind@),
{
    let ghost all = fields_of(rows@).map_values(
        |r: Seq<Seq<char>>| country_row(r, texts(countries@), kind@),
    );
    let mut out: Vec<GeoIpBlock> = Vec::new();
    assert(block_views(out@) =~= blocks_in(all.take(0)));
    for i in 0..rows.len()
        invariant
            all == fields_of(rows@).map_values(
                |r: Seq<Seq<char>>| country_row(r, texts(countries@), kind@),
            ),
            block_views(out@) == blocks_in(all.take(i as int)),
    {
        assert(fields_of(rows@)[i as int] == texts(rows@[i as int]@));
        assert(all.take(i + 1).drop_last() == all.take(i as int));
        assert(all.take(i + 1).last() == all[i as int]);
        let ghost before = block_views(out@);
        if let Some(b) = country_block(&rows[i], countries, kind) {
            let ghost view = b@;
            out.push(b);
            assert(block_views(out@) =~= before.push(view));
        }
    }
    assert(all.take(all.len() as int) == all);
    out
}

/// The networks that records of the operator table give.
pub fn asn_blocks(rows: &Vec<Vec<String>>, asns: &Vec<u32>, kind: &str) -> (r: Vec<GeoIpBlock>)
    ensures
        block_views(r@) == asn_blocks_of(fields_of(rows@), asns@, kind@),
{
    let ghost all = fields_of(rows@).map_values(|r: Seq<Seq<char>>| asn_row(r, asns@, kind@));
    let mut out: Vec<GeoIpBlock> = Vec::new();
    assert(block_views(out@) =~= blocks_in(all.take(0)));
    for i in 0..rows.len()
        invariant
            all == fields_of(rows@).map_values(|r: Seq<Seq<char>>| asn_row(r, asns@, kind@)),
            block_views(out@) == blocks_in(all.take(i as int)),
    {
        assert(fields_of(rows@)[i as int] == texts(rows@[i as int]@));
        assert(all.take(i + 1).drop_last() == all.take(i as int));
        assert(all.take(i + 1).last() == all[i as int]);
        let ghost before = block_views(out@);
        if let Some(b) = asn_block(&rows[i], asns, kind) {
            let ghost view = b@;
            out.push(b);
            assert(block_views(out@) =~= before.push(view));
        }
    }
    assert(all.take(all.len() as int) == all);
    out
}

/// The networks of the country table; none where no country is wanted or there is no
/// table.
pub open spec fn country_part(
    csv: Option<Seq<u8>>,
    countries: Seq<Seq<char>>,
    kind: Seq<char>,
) -> Option<Seq<BlockView>> {
    if countries.len() == 0 || csv is None {
        Some(Seq::empty())
    } else {
        match csv_records(csv->0) {
            Some(rows) => Some(country_blocks_of(rows, countries, kind)),
            None => None,
        }
    }
}

/// The networks of the operator table; none where no operator is wanted or there is no
/// table.
pub open spec fn asn_part(csv: Option<Seq<u8>>, asns: Seq<u32>, kind: Seq<char>) -> Option<
    Seq<BlockView>,
> {
    if asns.len() == 0 || csv is None {
        Some(Seq::empty())
    } else {
        match csv_records(csv->0) {
            Some(rows) => Some(asn_blocks_of(rows, asns, kind)),
            None => None,
        }
    }
}

pub fn parse_country_csv(data: &[u8], countries: &Vec<String>, kind: &str) -> (r: Result<
    Vec<GeoIpBlock>,
    GeoIpError,
>)
    ensures
        match r {
            Ok(v) => csv_records(data@) is Some && block_views(v@) == country_blocks_of(
                csv_records(data@)->0,
                texts(countries@),
                kind@,
            ),
            Err(e) => csv_records(data@) is None && e == GeoIpError::CountryCsv,
        },
{
    match csv_rows(data) {
        Some(rows) => Ok(country_blocks(&rows, countries, kind)),
        None => Err(GeoIpError::CountryCsv),
    }
}

pub fn parse_asn_csv(data: &[u8], asns: &Vec<u32>, kind: &str) -> (r: Result<
    Vec<GeoIpBlock>,
    GeoIpError,
>)
    ensures
        match r {
            Ok(v) => csv_records(data@) is Some && block_views(v@) == asn_blocks_of(
                csv_records(data@)->0,
                asns@,
                kind@,
            ),
            Err(e) => csv_records(data@) is None && e == GeoIpError::AsnCsv,
        },
{
    match csv_rows(data) {
        Some(rows) => Ok(asn_blocks(&rows, asns, kind)),
        None => Err(GeoIpError::AsnCsv),
    }
}

/// The view of optional data.
pub open spec fn data_of(csv: Option<&[u8]>) -> Option<Seq<u8>> {
    match csv {
        Some(d) => Some(d@),
        None => None,
    }
}

/// What both tables give, the country table first; the first table that cannot be read
/// is the fault.
pub open spec fn entries_of(
    country_csv: Option<Seq<u8>>,
    asn_csv: Option<Seq<u8>>,
    countries: Seq<Seq<char>>,
    asns: Seq<u32>,
    kind: Seq<char>,
) -> Result<Seq<BlockView>, GeoIpError> {
    match (country_part(country_csv, countries, kind), asn_part(asn_csv, asns, kind)) {
        (None, _) => Err(GeoIpError::CountryCsv),
        (_, None) => Err(GeoIpError::AsnCsv),
        (Some(a), Some(b)) => Ok(a + b),
    }
}

fn load_entries(
    country_csv: Option<&[u8]>,
    asn_csv: Option<&[u8]>,
    countries: &Vec<String>,
    asns: &Vec<u32>,
    kind: &str,
) -> (r: Result<Vec<GeoIpBlock>, GeoIpError>)
    ensures
        match r {
            Ok(v) => entries_of(
                data_of(country_csv),
                data_of(asn_csv),
                texts(countries@),
                asns@,
                kind@,
            ) == Ok::<Seq<BlockView>, GeoIpError>(block_views(v@)),
            Err(e) => entries_of(
                data_of(country_csv),
                data_of(asn_csv),
                texts(countries@),
                asns@,
                kind@,
            ) == Err::<Seq<BlockView>, GeoIpError>(e),
        },
{
    let mut blocks: Vec<GeoIpBlock> = Vec::new();
    assert(block_views(blocks@) =~= Seq::empty());
    if countries.len() > 0 {
        if let Some(data) = country_csv {
            match parse_country_csv(data, countries, kind) {
                Ok(v) => {
                    blocks = v;
                },
                Err(e) => {
                    return Err(e);
                },
            }
        }
    }
    let ghost first = block_views(blocks@);
    assert(country_part(data_of(country_csv), texts(countries@), kind@) == Some(first));
    let mut more: Vec<GeoIpBlock> = Vec::new();
    assert(block_views(more@) =~= Seq::empty());
    if asns.len() > 0 {
        if let Some(data) = asn_csv {
            match parse_asn_csv(data, asns, kind) {
                Ok(v) => {
                    more = v;
                },
                Err(e) => {
                    return Err(e);
                },
            }
        }
    }
    let ghost second = block_views(more@);
    assert(asn_part(data_of(asn_csv), asns@, kind@) == Some(second));
    blocks.append(&mut more);
    assert(block_views(blocks@) =~= first + second);
    Ok(blocks)
}

/// The networks to block. The data are the tables' contents, where the tables are there.
pub fn load_geoip_blocks(
    config: &GeoIpConfig,
    country_csv: Option<&[u8]>,
    asn_csv: Option<&[u8]>,
) -> (r: Result<Vec<GeoIpBlock>, GeoIpError>)
    ensures
        ({
            let e = entries_of(
                data_of(country_csv),
                data_of(asn_csv),
                texts(config.block_countries@),
                config.block_asns@,
                "block"@,
            );
            match r {
                Ok(v) => e == Ok::<Seq<BlockView>, GeoIpError>(block_views(v@)),
                Err(x) => e == Err::<Seq<BlockView>, GeoIpError>(x),
            }
        }),
{
    load_entries(country_csv, asn_csv, &config.block_countries, &config.block_asns, "block")
}

/// The networks to let through.
pub fn load_geoip_allows(
    config: &GeoIpConfig,
    country_csv: Option<&[u8]>,
    asn_csv: Option<&[u8]>,
) -> (r: Result<Vec<GeoIpBlock>, GeoIpError>)
    ensures
        ({
            let e = entries_of(
                data_of(country_csv),
                data_of(asn_csv),
                texts(config.allow_countries@),
                config.allow_asns@,
                "allow"@,
            );
            match r {
                Ok(v) => e == Ok::<Seq<BlockView>, GeoIpError>(block_views(v@)),
                Err(x) => e == Err::<Seq<BlockView>, GeoIpError>(x),
            }
        }),
{
    load_entries(country_csv, asn_csv, &config.allow_countries, &config.allow_asns, "allow")
}

} // verus!
