//! What the command-line client prints: JSON of the answer, or text and tables.

use vstd::prelude::*;
use vstd::string::*;
use crate::addr::{dotted, push_dotted};
use crate::dto::{Cidr, DnatMapping, Health, IfaceView, MasqueradeCfg, MasqueradeModel, SnatMapping};
use crate::settings::{Context, ContextsConfig};
use crate::text::{decimal, push_decimal};

verus! {

/// The views of a list of strings.
pub open spec fn strs(v: Seq<String>) -> Seq<Seq<char>> {
    v.map_values(|s: String| s@)
}

/// The views of a list of table rows.
pub open spec fn rows_view(v: Seq<Vec<String>>) -> Seq<Seq<Seq<char>>> {
    v.map_values(|r: Vec<String>| strs(r@))
}

/// The text of a table with full UTF-8 borders, as the table crate draws it from a
/// header and rows of cells; lines end without a final newline.
pub uninterp spec fn table_text(header: Seq<Seq<char>>, rows: Seq<Seq<Seq<char>>>) -> Seq<char>;

/// Draws a table.
///
/// Trusted wrapper around `comfy_table::Table` with the `UTF8_FULL` preset and its
/// `Display`. The contract names the drawn text [`table_text`] of the header and rows:
/// with no styles, no width and the default (disabled) arrangement, the crate's drawing
/// depends on nothing else. It states nothing of the drawing itself.
#[verifier::external_body]
fn render_table(header: Vec<String>, rows: Vec<Vec<String>>) -> (r: String)
    ensures
        r@ == table_text(strs(header@), rows_view(rows@)),
{
    let mut table = comfy_table::Table::new();
    table.load_preset(comfy_table::presets::UTF8_FULL).set_header(header);
    for row in rows {
        table.add_row(row);
    }
    table.to_string()
}

/// What is to be printed: the answer as pretty JSON, or this text.
#[derive(Debug)]
pub enum Rendered {
    Json,
    Text(String),
}

/// Whether `r` is JSON output when `json` is set and this text otherwise.
pub open spec fn renders(r: Rendered, json: bool, text: Seq<char>) -> bool {
    if json {
        r is Json
    } else {
        r matches Rendered::Text(t) && t@ == text
    }
}

/// The client's printer: JSON or human-readable text.
#[derive(Debug)]
pub struct Printer {
    json: bool,
}

/// The masquerade column: `on (n cidrs)`, `off (n cidrs)`, or `off` when off without blocks.
pub open spec fn masq_text(m: MasqueradeModel) -> Seq<char> {
    if m.enabled {
        "on ("@ + decimal(m.src_cidrs.len()) + " cidrs)"@
    } else if m.src_cidrs.len() != 0 {
        "off ("@ + decimal(m.src_cidrs.len()) + " cidrs)"@
    } else {
        "off"@
    }
}

/// The table row of an interface: name, address (or `-`), DNAT count, SNAT count, masquerading.
pub open spec fn iface_row(v: IfaceView) -> Seq<Seq<char>> {
    seq![
        v.name@,
        match v.iface_ip {
            Some(ip) => dotted(ip),
            None => "-"@,
        },
        decimal(v.dnat@.len()),
        decimal(v.snat@.len()),
        masq_text(v.masquerade@),
    ]
}

/// The header of the interface table.
pub open spec fn iface_header() -> Seq<Seq<char>> {
    seq!["NAME"@, "IFACE_IP"@, "DNAT"@, "SNAT"@, "MASQ"@]
}

/// The header of a mapping table.
pub open spec fn mapping_header() -> Seq<Seq<char>> {
    seq!["ORIG"@, "NEW"@]
}

/// The header of the context table.
pub open spec fn context_header() -> Seq<Seq<char>> {
    seq![""@, "NAME"@, "URL"@, "TOKEN"@]
}

/// The lines of the masquerade blocks: `  a.b.c.d/len` each.
pub open spec fn cidr_lines(c: Seq<Cidr>) -> Seq<char>
    decreases c.len(),
{
    if c.len() == 0 {
        Seq::empty()
    } else {
        cidr_lines(c.drop_last()) + "  "@ + dotted(c.last().addr) + "/"@ + decimal(c.last().prefix_len as nat) + "\n"@
    }
}

/// The text of a masquerade configuration.
pub open spec fn masquerade_text(m: MasqueradeModel) -> Seq<char> {
    "enabled: "@ + (if m.enabled { "true"@ } else { "false"@ }) + "\n"@ + if m.src_cidrs.len() == 0 {
        "cidrs:   (none)\n"@
    } else {
        "cidrs:\n"@ + cidr_lines(m.src_cidrs)
    }
}

/// The table row of a context: `*` for the current one, name, address, `***` or `-` for the token.
pub open spec fn context_row(name: Seq<char>, ctx: Context, current: Seq<char>) -> Seq<Seq<char>> {
    seq![if name == current { "*"@ } else { ""@ }, name, ctx.url@, if ctx.token is Some { "***"@ } else { "-"@ }]
}

fn mapping_row(orig: u32, new: u32) -> (r: Vec<String>)
    ensures
        strs(r@) == seq![dotted(orig), dotted(new)],
{
    let mut a = String::new();
    push_dotted(&mut a, orig);
    let mut b = String::new();
    push_dotted(&mut b, new);
    let r = vec![a, b];
    assert(strs(r@) =~= seq![dotted(orig), dotted(new)]);
    r
}

fn str_vec(v: Vec<&str>) -> (r: Vec<String>)
    ensures
        strs(r@) == v@.map_values(|s: &str| s@),
{
    let mut r: Vec<String> = Vec::new();
    let mut i: usize = 0;
    while i < v.len()
        invariant
            i <= v@.len(),
            r@.len() == i,
            forall|j: int| 0 <= j < i ==> #[trigger] r@[j]@ == v@[j]@,
        decreases v@.len() - i,
    {
        r.push(v[i].to_owned());
        i = i + 1;
    }
    assert(strs(r@) =~= v@.map_values(|s: &str| s@));
    r
}

fn masq_cell(m: &MasqueradeCfg) -> (s: String)
    ensures
        s@ == masq_text(m@),
{
    let n: usize = m.src_cidrs.len();
    if m.enabled {
        let mut s = "on (".to_owned();
        push_decimal(&mut s, n as u64);
        s.append(" cidrs)");
        s
    } else if n != 0 {
        let mut s = "off (".to_owned();
        push_decimal(&mut s, n as u64);
        s.append(" cidrs)");
        s
    } else {
        "off".to_owned()
    }
}

fn iface_cells(v: &IfaceView) -> (r: Vec<String>)
    ensures
        strs(r@) == iface_row(*v),
{
    let ip = match v.iface_ip {
        Some(a) => {
            let mut s = String::new();
            push_dotted(&mut s, a);
            s
        },
        None => "-".to_owned(),
    };
    let mut d = String::new();
    push_decimal(&mut d, v.dnat.len() as u64);
    let mut n = String::new();
    push_decimal(&mut n, v.snat.len() as u64);
    let r = vec![v.name.clone(), ip, d, n, masq_cell(&v.masquerade)];
    assert(strs(r@) =~= iface_row(*v));
    r
}

impl Printer {
    /// Whether the printer writes JSON.
    pub closed spec fn wants_json(&self) -> bool {
        self.json
    }

    /// A printer that writes JSON when `json` is set and text otherwise.
    pub fn new(json: bool) -> (p: Printer)
        ensures
            p.wants_json() == json,
    {
        Printer { json }
    }

    /// The health answer: `ok` or `unhealthy`.
    pub fn health(&self, h: &Health) -> (r: Rendered)
        ensures
            renders(r, self.wants_json(), if h.ok { "ok\n"@ } else { "unhealthy\n"@ }),
    {
        if self.json {
            return Rendered::Json;
        }
        if h.ok {
            Rendered::Text("ok\n".to_owned())
        } else {
            Rendered::Text("unhealthy\n".to_owned())
        }
    }

    /// The interfaces: `(no interfaces)`, or a table with a row per interface.
    pub fn ifaces(&self, ifaces: &Vec<IfaceView>) -> (r: Rendered)
        ensures
            renders(
                r,
                self.wants_json(),
                if ifaces@.len() == 0 {
                    "(no interfaces)\n"@
                } else {
                    table_text(iface_header(), ifaces@.map_values(|v: IfaceView| iface_row(v))) + "\n"@
                },
            ),
    {
        if self.json {
            return Rendered::Json;
        }
        if ifaces.len() == 0 {
            return Rendered::Text("(no interfaces)\n".to_owned());
        }
        let header = str_vec(vec!["NAME", "IFACE_IP", "DNAT", "SNAT", "MASQ"]);
        proof {
            assert(strs(header@) =~= iface_header());
        }
        let mut rows: Vec<Vec<String>> = Vec::new();
        let mut i: usize = 0;
        while i < ifaces.len()
            invariant
                i <= ifaces@.len(),
                rows@.len() == i,
                forall|j: int| 0 <= j < i ==> #[trigger] strs(rows@[j]@) == ({ let v = ifaces@[j]; iface_row(v) }),
            decreases ifaces@.len() - i,
        {
            rows.push(iface_cells(&ifaces[i]));
            i = i + 1;
        }
        proof {
            assert(rows_view(rows@) =~= ifaces@.map_values(|v: IfaceView| iface_row(v)));
        }
        let mut t = render_table(header, rows);
        t.append("\n");
        Rendered::Text(t)
    }

    /// An interface that an action touched: `{action} interface {name}`.
    pub fn iface(&self, i: &IfaceView, action: &str) -> (r: Rendered)
        ensures
            renders(r, self.wants_json(), action@ + " interface "@ + i.name@ + "\n"@),
    {
        if self.json {
            return Rendered::Json;
        }
        let mut s = action.to_owned();
        s.append(" interface ");
        s.append(i.name.as_str());
        s.append("\n");
        Rendered::Text(s)
    }

    /// DNAT mappings: `(no dnat mappings)`, or a table of original and new addresses.
    pub fn dnat_list(&self, mappings: &Vec<DnatMapping>) -> (r: Rendered)
        ensures
            renders(
                r,
                self.wants_json(),
                if mappings@.len() == 0 {
                    "(no dnat mappings)\n"@
                } else {
                    table_text(mapping_header(), mappings@.map_values(|m: DnatMapping| seq![dotted(m.orig), dotted(m.new)])) + "\n"@
                },
            ),
    {
        if self.json {
            return Rendered::Json;
        }
        if mappings.len() == 0 {
            return Rendered::Text("(no dnat mappings)\n".to_owned());
        }
        let header = str_vec(vec!["ORIG", "NEW"]);
        proof {
            assert(strs(header@) =~= mapping_header());
        }
        let mut rows: Vec<Vec<String>> = Vec::new();
        let mut i: usize = 0;
        while i < mappings.len()
            invariant
                i <= mappings@.len(),
                rows@.len() == i,
                forall|j: int| 0 <= j < i ==> #[trigger] strs(rows@[j]@) == ({ let m = mappings@[j]; seq![dotted(m.orig), dotted(m.new)] }),
            decreases mappings@.len() - i,
        {
            rows.push(mapping_row(mappings[i].orig, mappings[i].new));
            i = i + 1;
        }
        proof {
            assert(rows_view(rows@) =~= mappings@.map_values(|m: DnatMapping| seq![dotted(m.orig), dotted(m.new)]));
        }
        let mut t = render_table(header, rows);
        t.append("\n");
        Rendered::Text(t)
    }

    /// A DNAT mapping that an action touched: `{action} dnat {orig} -> {new}`.
    pub fn dnat(&self, m: &DnatMapping, action: &str) -> (r: Rendered)
        ensures
            renders(r, self.wants_json(), action@ + " dnat "@ + dotted(m.orig) + " -> "@ + dotted(m.new) + "\n"@),
    {
        if self.json {
            return Rendered::Json;
        }
        let mut s = action.to_owned();
        s.append(" dnat ");
        push_dotted(&mut s, m.orig);
        s.append(" -> ");
        push_dotted(&mut s, m.new);
        s.append("\n");
        Rendered::Text(s)
    }

    /// SNAT mappings: `(no snat mappings)`, or a table of original and new addresses.
    pub fn snat_list(&self, mappings: &Vec<SnatMapping>) -> (r: Rendered)
        ensures
            renders(
                r,
                self.wants_json(),
                if mappings@.len() == 0 {
                    "(no snat mappings)\n"@
                } else {
                    table_text(mapping_header(), mappings@.map_values(|m: SnatMapping| seq![dotted(m.orig), dotted(m.new)])) + "\n"@
                },
            ),
    {
        if self.json {
            return Rendered::Json;
        }
        if mappings.len() == 0 {
            return Rendered::Text("(no snat mappings)\n".to_owned());
        }
        let header = str_vec(vec!["ORIG", "NEW"]);
        proof {
            assert(strs(header@) =~= mapping_header());
        }
        let mut rows: Vec<Vec<String>> = Vec::new();
        let mut i: usize = 0;
        while i < mappings.len()
            invariant
                i <= mappings@.len(),
                rows@.len() == i,
                forall|j: int| 0 <= j < i ==> #[trigger] strs(rows@[j]@) == ({ let m = mappings@[j]; seq![dotted(m.orig), dotted(m.new)] }),
            decreases mappings@.len() - i,
        {
            rows.push(mapping_row(mappings[i].orig, mappings[i].new));
            i = i + 1;
        }
        proof {
            assert(rows_view(rows@) =~= mappings@.map_values(|m: SnatMapping| seq![dotted(m.orig), dotted(m.new)]));
        }
        let mut t = render_table(header, rows);
        t.append("\n");
        Rendered::Text(t)
    }

    /// An SNAT mapping that an action touched: `{action} snat {orig} -> {new}`.
    pub fn snat(&self, m: &SnatMapping, action: &str) -> (r: Rendered)
        ensures
            renders(r, self.wants_json(), action@ + " snat "@ + dotted(m.orig) + " -> "@ + dotted(m.new) + "\n"@),
    {
        if self.json {
            return Rendered::Json;
        }
        let mut s = action.to_owned();
        s.append(" snat ");
        push_dotted(&mut s, m.orig);
        s.append(" -> ");
        push_dotted(&mut s, m.new);
        s.append("\n");
        Rendered::Text(s)
    }

    /// A masquerade configuration: whether it is on and its source blocks.
    pub fn masquerade(&self, cfg: &MasqueradeCfg) -> (r: Rendered)
        ensures
            renders(r, self.wants_json(), masquerade_text(cfg@)),
    {
        if self.json {
            return Rendered::Json;
        }
        let mut s = "enabled: ".to_owned();
        if cfg.enabled {
            s.append("true");
        } else {
            s.append("false");
        }
        s.append("\n");
        if cfg.src_cidrs.len() == 0 {
            s.append("cidrs:   (none)\n");
        } else {
            s.append("cidrs:\n");
            let ghost head = s@;
            let mut i: usize = 0;
            while i < cfg.src_cidrs.len()
                invariant
                    i <= cfg.src_cidrs@.len(),
                    s@ == head + cidr_lines(cfg.src_cidrs@.take(i as int)),
                decreases cfg.src_cidrs@.len() - i,
            {
                let c = cfg.src_cidrs[i];
                s.append("  ");
                push_dotted(&mut s, c.addr);
                s.append("/");
                push_decimal(&mut s, c.prefix_len as u64);
                s.append("\n");
                proof {
                    assert(cfg.src_cidrs@.take(i + 1).drop_last() =~= cfg.src_cidrs@.take(i as int));
                    assert(s@ =~= head + cidr_lines(cfg.src_cidrs@.take(i + 1)));
                }
                i = i + 1;
            }
            proof {
                assert(cfg.src_cidrs@.take(cfg.src_cidrs@.len() as int) =~= cfg.src_cidrs@);
            }
        }
        proof {
            assert(s@ =~= masquerade_text(cfg@));
        }
        Rendered::Text(s)
    }

    /// A deletion: `deleted {kind} {id}`.
    pub fn deleted(&self, kind: &str, id: &str) -> (r: Rendered)
        ensures
            renders(r, self.wants_json(), "deleted "@ + kind@ + " "@ + id@ + "\n"@),
    {
        if self.json {
            return Rendered::Json;
        }
        let mut s = "deleted ".to_owned();
        s.append(kind);
        s.append(" ");
        s.append(id);
        s.append("\n");
        Rendered::Text(s)
    }

    /// The known daemons: `(no contexts)`, or a table that stars the current one and
    /// hides tokens.
    pub fn contexts(&self, cfg: &ContextsConfig) -> (r: Rendered)
        ensures
            renders(
                r,
                self.wants_json(),
                if cfg.contexts@.len() == 0 {
                    "(no contexts)\n"@
                } else {
                    table_text(
                        context_header(),
                        cfg.contexts@.map_values(|e: (String, Context)|
                            context_row(e.0@, e.1, match cfg.current {
                                Some(c) => c@,
                                None => Seq::empty(),
                            })),
                    ) + "\n"@
                },
            ),
    {
        if self.json {
            return Rendered::Json;
        }
        if cfg.contexts.len() == 0 {
            return Rendered::Text("(no contexts)\n".to_owned());
        }
        let current: String = match &cfg.current {
            Some(c) => c.clone(),
            None => String::new(),
        };
        let ghost cur = current@;
        let header = str_vec(vec!["", "NAME", "URL", "TOKEN"]);
        proof {
            reveal_strlit("");
            assert(strs(header@) =~= context_header());
        }
        let mut rows: Vec<Vec<String>> = Vec::new();
        let mut i: usize = 0;
        while i < cfg.contexts.len()
            invariant
                i <= cfg.contexts@.len(),
                current@ == cur,
                cur == match cfg.current {
                    Some(c) => c@,
                    None => Seq::<char>::empty(),
                },
                rows@.len() == i,
                forall|j: int| 0 <= j < i ==> #[trigger] strs(rows@[j]@) == ({ let e = cfg.contexts@[j]; context_row(e.0@, e.1, cur) }),
            decreases cfg.contexts@.len() - i,
        {
            let e = &cfg.contexts[i];
            let star = if e.0 == current { "*".to_owned() } else { String::new() };
            let token = if e.1.token.is_some() { "***".to_owned() } else { "-".to_owned() };
            let row = vec![star, e.0.clone(), e.1.url.clone(), token];
            proof {
                reveal_strlit("");
                assert(strs(row@) =~~= context_row(e.0@, e.1, cur));
            }
            rows.push(row);
            i = i + 1;
        }
        proof {
            assert(rows_view(rows@) =~= cfg.contexts@.map_values(|e: (String, Context)| context_row(e.0@, e.1, cur)));
            assert(rows_view(rows@) =~= cfg.contexts@.map_values(|e: (String, Context)|
                context_row(e.0@, e.1, match cfg.current {
                    Some(c) => c@,
                    None => Seq::empty(),
                })));
        }
        let mut t = render_table(header, rows);
        t.append("\n");
        Rendered::Text(t)
    }

    /// One daemon: its name (marked when current), address, and whether it has a token.
    pub fn context(&self, name: &str, ctx: &Context, current: bool) -> (r: Rendered)
        ensures
            renders(
                r,
                self.wants_json(),
                "name:    "@ + name@ + (if current { " (current)"@ } else { Seq::empty() }) + "\n"@ + "url:     "@
                    + ctx.url@ + "\n"@ + "token:   "@ + (if ctx.token is Some { "***"@ } else { "(none)"@ })
                    + "\n"@,
            ),
    {
        if self.json {
            return Rendered::Json;
        }
        let mut s = "name:    ".to_owned();
        s.append(name);
        if current {
            s.append(" (current)");
        }
        s.append("\n");
        s.append("url:     ");
        s.append(ctx.url.as_str());
        s.append("\n");
        s.append("token:   ");
        if ctx.token.is_some() {
            s.append("***");
        } else {
            s.append("(none)");
        }
        s.append("\n");
        proof {
            assert(s@ =~= "name:    "@ + name@ + (if current { " (current)"@ } else { Seq::empty() }) + "\n"@
                + "url:     "@ + ctx.url@ + "\n"@ + "token:   "@ + (if ctx.token is Some { "***"@ } else { "(none)"@ })
                + "\n"@);
        }
        Rendered::Text(s)
    }

    /// An action on a daemon entry: `{action} context {name}`.
    pub fn context_action(&self, action: &str, name: &str) -> (r: Rendered)
        ensures
            renders(r, self.wants_json(), action@ + " context "@ + name@ + "\n"@),
    {
        if self.json {
            return Rendered::Json;
        }
        let mut s = action.to_owned();
        s.append(" context ");
        s.append(name);
        s.append("\n");
        Rendered::Text(s)
    }
}


/// In an interface row, each cell stands under the header that names it: the name under
/// `NAME`, the address (or `-`) under `IFACE_IP`, the decimal count of the interface's DNAT
/// mappings under `DNAT` and of its SNAT mappings under `SNAT`, and the masquerade
/// summary under `MASQ`; the row has a cell for each header.
pub proof fn lemma_iface_row_under_header(v: IfaceView)
    ensures
        iface_row(v).len() == iface_header().len(),
        forall|j: int| 0 <= j < iface_header().len() ==> {
            &&& #[trigger] iface_header()[j] == "NAME"@ ==> iface_row(v)[j] == v.name@
            &&& iface_header()[j] == "IFACE_IP"@ ==> iface_row(v)[j] == match v.iface_ip {
                Some(ip) => dotted(ip),
                None => "-"@,
            }
            &&& iface_header()[j] == "DNAT"@ ==> iface_row(v)[j] == decimal(v.dnat@.len())
            &&& iface_header()[j] == "SNAT"@ ==> iface_row(v)[j] == decimal(v.snat@.len())
            &&& iface_header()[j] == "MASQ"@ ==> iface_row(v)[j] == masq_text(v.masquerade@)
        },
{
    reveal_strlit("NAME");
    reveal_strlit("IFACE_IP");
    reveal_strlit("DNAT");
    reveal_strlit("SNAT");
    reveal_strlit("MASQ");
    let h = iface_header();
    assert(h[0] == "NAME"@ && h[1] == "IFACE_IP"@ && h[2] == "DNAT"@ && h[3] == "SNAT"@ && h[4] == "MASQ"@);
    assert("NAME"@[0] == 'N' && "IFACE_IP"@[0] == 'I' && "DNAT"@[0] == 'D' && "SNAT"@[0] == 'S' && "MASQ"@[0] == 'M');
}


/// In a context row, each cell stands under the header that names it: the name under
/// `NAME`, the daemon's address under `URL`, `***` under `TOKEN` where the context holds a
/// token and `-` where it does not; the unnamed first column marks the current context
/// with `*`; the row has a cell for each header.
pub proof fn lemma_context_row_under_header(name: Seq<char>, ctx: Context, current: Seq<char>)
    ensures
        context_row(name, ctx, current).len() == context_header().len(),
        forall|j: int| 0 <= j < context_header().len() ==> {
            &&& #[trigger] context_header()[j] == ""@ ==> context_row(name, ctx, current)[j]
                == (if name == current { "*"@ } else { ""@ })
            &&& context_header()[j] == "NAME"@ ==> context_row(name, ctx, current)[j] == name
            &&& context_header()[j] == "URL"@ ==> context_row(name, ctx, current)[j] == ctx.url@
            &&& context_header()[j] == "TOKEN"@ ==> context_row(name, ctx, current)[j]
                == (if ctx.token is Some { "***"@ } else { "-"@ })
        },
{
    reveal_strlit("");
    reveal_strlit("NAME");
    reveal_strlit("URL");
    reveal_strlit("TOKEN");
    let h = context_header();
    assert(h[0] == ""@ && h[1] == "NAME"@ && h[2] == "URL"@ && h[3] == "TOKEN"@);
    assert("NAME"@[0] == 'N' && "URL"@[0] == 'U' && "TOKEN"@[0] == 'T');
}

} // verus!
