//! The `resolv.conf` format: reading and writing the portable directives.
//!
//! Only `nameserver`, `search` and `domain` lines count. Everything else, comments included, is
//! skipped, and so is a `nameserver` line that does not name an address.

use crate::address::ip_text_reads_back;
use crate::address::ip_value;
use crate::address::lemma_ip_text_is_a_word;
use crate::address::read_ip;
use crate::address::IpAddress;
use crate::dns::DnsConfig;
use crate::dns::NewDnsConfig;
use crate::dns::Resolver;
use crate::gather::gathered;
use crate::gather::given;
use crate::gather::lemma_gathered_congruent;
use crate::gather::lemma_gathered_empty;
use crate::gather::lemma_gathered_singles;
use crate::gather::lemma_gathered_split;
use crate::gather::optional;
use crate::text::chars_of;
use crate::text::exactly;
use crate::text::is_space;
use crate::text::join;
use crate::text::lemma_nonempty_all;
use crate::text::lemma_pieces_after_separator;
use crate::text::lemma_pieces_append;
use crate::text::lemma_pieces_join;
use crate::text::lemma_pieces_unbroken;
use crate::text::pieces;
use crate::text::rows;
use crate::text::same_chars;
use crate::text::space;
use crate::text::split_at_char;
use crate::text::split_words;
use crate::text::string_of;
use crate::text::texts;
use crate::text::unbroken;
use crate::text::words;
use vstd::prelude::*;

verus! {

/// The lines of a text.
pub open spec fn lines(text: Seq<char>) -> Seq<Seq<char>> {
    pieces(text, exactly('\n'))
}

/// The nameserver that a line names, if any.
pub open spec fn line_nameservers(line: Seq<char>) -> Seq<IpAddress> {
    let parts = words(line);
    if parts.len() >= 2 && parts[0] == "nameserver"@ {
        optional(ip_value(parts[1]))
    } else {
        Seq::empty()
    }
}

/// The search domains that a line names. A `domain` line is a search list of its own.
pub open spec fn line_domains(line: Seq<char>) -> Seq<Seq<char>> {
    let parts = words(line);
    if parts.len() >= 1 && (parts[0] == "search"@ || parts[0] == "domain"@) {
        parts.skip(1)
    } else {
        Seq::empty()
    }
}

/// The nameservers that lines name, in order.
pub open spec fn nameservers_in(list: Seq<Seq<char>>) -> Seq<IpAddress> {
    gathered(list.len(), |i: int| line_nameservers(list[i]))
}

/// The search domains that lines name, in order.
pub open spec fn domains_in(list: Seq<Seq<char>>) -> Seq<Seq<char>> {
    gathered(list.len(), |i: int| line_domains(list[i]))
}

/// What a resolver file says.
pub open spec fn resolver_in(text: Seq<char>) -> Resolver {
    Resolver {
        nameservers: nameservers_in(lines(text)),
        search_domains: domains_in(lines(text)),
    }
}

/// The lines that state a resolver configuration: one for each nameserver, then one for all
/// search domains if there are any.
pub open spec fn resolver_lines(resolver: Resolver) -> Seq<Seq<char>> {
    resolver.nameservers.map_values(|address: IpAddress| "nameserver "@ + address.text()) + given(
        resolver.search_domains.len() > 0,
        "search "@ + join(resolver.search_domains, ' '),
    )
}

/// Lines with a line end after each.
pub open spec fn ended(list: Seq<Seq<char>>) -> Seq<char> {
    gathered(list.len(), |i: int| list[i].push('\n'))
}

/// Whether a row of characters is a given literal.
fn spells(row: &Vec<char>, literal: &str) -> (same: bool)
    ensures
        same == (row@ == literal@),
{
    same_chars(row, &chars_of(literal))
}

/// Reads the `nameserver`, `search` and `domain` directives of a resolver file.
pub fn parse_resolv_conf(contents: &str) -> (config: DnsConfig)
    ensures
        config@ == resolver_in(contents@),
{
    let all = split_at_char(&chars_of(contents), '\n');
    let ghost list = lines(contents@);
    let ghost servers = |i: int| line_nameservers(list[i]);
    let ghost domains = |i: int| line_domains(list[i]);
    let mut config = DnsConfig::new();
    let mut i: usize = 0;
    assert(rows(all@).len() == all.len());
    assert(config@ =~= Resolver {
        nameservers: gathered(0, servers),
        search_domains: gathered(0, domains),
    });
    while i < all.len()
        invariant
            i <= all.len() == list.len(),
            rows(all@) == list,
            servers == (|k: int| line_nameservers(list[k])),
            domains == (|k: int| line_domains(list[k])),
            config@.nameservers == gathered(i as nat, servers),
            config@.search_domains == gathered(i as nat, domains),
        decreases all.len() - i,
    {
        let ghost before = config@;
        assert(list[i as int] == all@[i as int]@);
        let parts = split_words(&all[i]);
        let ghost line_words = words(list[i as int]);
        assert(rows(parts@).len() == parts.len());
        if parts.len() >= 1 {
            assert(line_words[0] == parts@[0]@);
            proof {
                lemma_directives_differ();
            }
            if spells(&parts[0], "nameserver") {
                if parts.len() >= 2 {
                    assert(line_words[1] == parts@[1]@);
                    if let Some(address) = read_ip(&parts[1]) {
                        config.nameservers.push(address);
                    }
                }
            } else if spells(&parts[0], "search") || spells(&parts[0], "domain") {
                let mut k: usize = 1;
                assert(line_words.skip(1).take(0) =~= Seq::empty());
                assert(config@.search_domains =~= before.search_domains + line_words.skip(1).take(
                    0,
                ));
                while k < parts.len()
                    invariant
                        1 <= k <= parts.len(),
                        line_words == rows(parts@),
                        config@.nameservers == before.nameservers,
                        config@.search_domains == before.search_domains + line_words.skip(1).take(
                            k - 1,
                        ),
                    decreases parts.len() - k,
                {
                    let ghost kept = config.search_domains@;
                    let domain = string_of(&parts[k]);
                    config.search_domains.push(domain);
                    proof {
                        assert(texts(config.search_domains@) =~= texts(kept).push(domain@));
                        assert(line_words.skip(1)[k - 1] == parts@[k as int]@);
                    }
                    k = k + 1;
                    assert(config@.search_domains =~= before.search_domains + line_words.skip(
                        1,
                    ).take(k - 1));
                }
                assert(line_words.skip(1).take(k - 1) =~= line_words.skip(1));
            }
        }
        assert(config@.nameservers =~= before.nameservers + servers(i as int));
        assert(config@.search_domains =~= before.search_domains + domains(i as int));
        i = i + 1;
        assert(gathered(i as nat, servers) == gathered((i - 1) as nat, servers) + servers(i - 1));
        assert(gathered(i as nat, domains) == gathered((i - 1) as nat, domains) + domains(i - 1));
    }
    assert(config@ =~= resolver_in(contents@));
    config
}

/// Writes a resolver configuration: one `nameserver` line each, then one `search` line.
pub fn render_resolv_conf(config: &NewDnsConfig) -> (contents: String)
    ensures
        contents@ == ended(resolver_lines(config@)),
{
    let ghost list = resolver_lines(config@);
    let ghost piece = |i: int| list[i].push('\n');
    let mut contents = String::new();
    let mut i: usize = 0;
    while i < config.nameservers.len()
        invariant
            i <= config.nameservers.len(),
            list == resolver_lines(config@),
            piece == (|k: int| list[k].push('\n')),
            contents@ == gathered(i as nat, piece),
        decreases config.nameservers.len() - i,
    {
        let ghost before = contents@;
        contents.append("nameserver ");
        config.nameservers[i].push_text(&mut contents);
        contents.push('\n');
        assert(list[i as int] == "nameserver "@ + config@.nameservers[i as int].text());
        assert(contents@ =~= before + piece(i as int));
        i = i + 1;
        assert(gathered(i as nat, piece) == gathered((i - 1) as nat, piece) + piece(i - 1));
    }
    if config.search_domains.len() > 0 {
        let ghost before = contents@;
        let ghost domains = config@.search_domains;
        assert(domains[0] == config.search_domains@[0]@);
        contents.append("search ");
        contents.append(config.search_domains[0].as_str());
        let mut k: usize = 1;
        proof {
            assert(domains.take(1).len() == 1);
            assert(join(domains.take(1), ' ') == domains[0]);
            assert(contents@ =~= before + "search "@ + join(domains.take(1), ' '));
        }
        while k < config.search_domains.len()
            invariant
                1 <= k <= config.search_domains.len(),
                domains == config@.search_domains,
                contents@ == before + "search "@ + join(domains.take(k as int), ' '),
            decreases config.search_domains.len() - k,
        {
            contents.push(' ');
            contents.append(config.search_domains[k].as_str());
            proof {
                assert(domains[k as int] == config.search_domains@[k as int]@);
                assert(domains.take(k + 1).drop_last() =~= domains.take(k as int));
                assert(domains.take(k + 1).last() == domains[k as int]);
            }
            k = k + 1;
            assert(contents@ =~= before + "search "@ + join(domains.take(k as int), ' '));
        }
        contents.push('\n');
        proof {
            assert(domains.take(k as int) =~= domains);
            assert(list[i as int] == "search "@ + join(domains, ' '));
            assert(contents@ =~= before + piece(i as int));
            assert(list.len() == i + 1);
            assert(gathered(list.len(), piece) == gathered(i as nat, piece) + piece(i as int));
        }
    } else {
        assert(list.len() == i);
    }
    contents
}

// ---- laws ----

/// The directives are different words, and none of them begins a comment.
proof fn lemma_directives_differ()
    ensures
        "nameserver"@ != "search"@,
        "nameserver"@ != "domain"@,
        "nameserver"@[0] == 'n',
        "search"@[0] == 's',
        "domain"@[0] == 'd',
{
    reveal_strlit("nameserver");
    reveal_strlit("search");
    reveal_strlit("domain");
    assert("nameserver"@[0] == 'n' && "search"@[0] == 's' && "domain"@[0] == 'd');
}

/// A comment, which is a line that begins with `#` or `;`, says nothing.
pub proof fn comments_say_nothing(line: Seq<char>)
    requires
        words(line).len() > 0,
        words(line)[0].len() > 0,
        words(line)[0][0] == '#' || words(line)[0][0] == ';',
    ensures
        line_nameservers(line) == Seq::<IpAddress>::empty(),
        line_domains(line) == Seq::<Seq<char>>::empty(),
{
    lemma_directives_differ();
}

/// Whether every search domain is one word: not empty, and without white space.
pub open spec fn domains_are_words(domains: Seq<Seq<char>>) -> bool {
    forall|i: int|
        0 <= i < domains.len() ==> (#[trigger] domains[i]).len() > 0 && unbroken(
            domains[i],
            space(),
        )
}

/// What is written is read back: a resolver configuration whose search domains are single words
/// comes out of the file as it went in, in the same order.
pub proof fn written_resolver_reads_back(resolver: Resolver)
    requires
        domains_are_words(resolver.search_domains),
    ensures
        resolver_in(ended(resolver_lines(resolver))) == resolver,
{
    let servers = resolver.nameservers;
    let domains = resolver.search_domains;
    let list = resolver_lines(resolver);
    let n = servers.len();
    assert forall|i: int| 0 <= i < n implies unbroken(#[trigger] list[i], exactly('\n'))
        && line_nameservers(list[i]) == seq![servers[i]] && line_domains(list[i])
        == Seq::<Seq<char>>::empty() by {
        assert(list[i] == "nameserver "@ + servers[i].text());
        lemma_nameserver_line(servers[i]);
    }
    if domains.len() > 0 {
        assert(list[n as int] == "search "@ + join(domains, ' '));
        lemma_search_line(domains);
    }
    assert forall|i: int| 0 <= i < list.len() implies unbroken(
        #[trigger] list[i],
        exactly('\n'),
    ) by {
        if i >= n {
            assert(i == n);
        }
    }
    lemma_ended_lines(list);
    let all = list.push(Seq::empty());
    assert(lines(ended(list)) == all);
    lemma_empty_line();
    let m = (all.len() - n) as nat;

    let server_piece = |i: int| line_nameservers(all[i]);
    let server_rest = |i: int| line_nameservers(all[n + i]);
    lemma_gathered_split(n, m, server_piece, server_rest);
    assert forall|i: int| 0 <= i < n implies (#[trigger] server_piece(i)) == seq![servers[i]] by {
        assert(all[i] == list[i]);
    }
    lemma_gathered_singles(n, server_piece);
    assert(gathered(n, server_piece) =~= servers);
    assert forall|i: int| 0 <= i < m implies (#[trigger] server_rest(i)).len() == 0 by {
        if n + i < list.len() {
            assert(all[n + i] == list[n as int]);
        }
    }
    lemma_gathered_empty(m, server_rest);
    assert(nameservers_in(all) =~= servers);

    let domain_piece = |i: int| line_domains(all[i]);
    let domain_rest = |i: int| line_domains(all[n + i]);
    lemma_gathered_split(n, m, domain_piece, domain_rest);
    assert forall|i: int| 0 <= i < n implies (#[trigger] domain_piece(i)).len() == 0 by {
        assert(all[i] == list[i]);
    }
    lemma_gathered_empty(n, domain_piece);
    if domains.len() > 0 {
        assert(m == 2);
        assert(domain_rest(0) == domains);
        assert(domain_rest(1) == Seq::<Seq<char>>::empty());
        assert(gathered(0, domain_rest) == Seq::<Seq<char>>::empty());
        assert(gathered(1, domain_rest) == gathered(0, domain_rest) + domain_rest(0));
        assert(gathered(2, domain_rest) == gathered(1, domain_rest) + domain_rest(1));
        assert(gathered(m, domain_rest) =~= domains);
    } else {
        assert(m == 1);
        assert(domain_rest(0) == Seq::<Seq<char>>::empty());
        assert(gathered(0, domain_rest) == Seq::<Seq<char>>::empty());
        assert(gathered(1, domain_rest) == gathered(0, domain_rest) + domain_rest(0));
        assert(gathered(m, domain_rest) =~= domains);
    }
    assert(domains_in(all) =~= domains);
    assert(resolver_in(ended(list)) =~= resolver);
}

/// Lines that are ended come apart again, with an empty line after the last end.
proof fn lemma_ended_lines(list: Seq<Seq<char>>)
    requires
        forall|i: int| 0 <= i < list.len() ==> unbroken(#[trigger] list[i], exactly('\n')),
    ensures
        lines(ended(list)) == list.push(Seq::empty()),
    decreases list.len(),
{
    if list.len() == 0 {
        assert(lines(ended(list)) =~= list.push(Seq::empty()));
    } else {
        let shorter = list.drop_last();
        let last = list.last();
        assert forall|i: int| 0 <= i < shorter.len() implies unbroken(
            #[trigger] shorter[i],
            exactly('\n'),
        ) by {
            assert(shorter[i] == list[i]);
        }
        lemma_ended_lines(shorter);
        lemma_gathered_congruent(
            shorter.len(),
            |i: int| list[i].push('\n'),
            |i: int| shorter[i].push('\n'),
        );
        let end = last.push('\n');
        assert(ended(list) == ended(shorter) + end);
        assert(unbroken(list[list.len() - 1], exactly('\n')));
        lemma_pieces_unbroken(last, exactly('\n'));
        assert(end.drop_last() =~= last);
        let tail = pieces(end, exactly('\n'));
        assert(tail =~= seq![last, Seq::empty()]);
        lemma_pieces_append(ended(shorter), end, exactly('\n'));
        let empty = Seq::<char>::empty();
        assert(empty + last =~= last);
        assert(lines(ended(list)) =~= list.push(Seq::empty()));
    }
}

/// An empty line says nothing.
proof fn lemma_empty_line()
    ensures
        line_nameservers(Seq::empty()) == Seq::<IpAddress>::empty(),
        line_domains(Seq::empty()) == Seq::<Seq<char>>::empty(),
{
    let none = Seq::<char>::empty();
    assert(pieces(none, space()) == seq![none]);
    let piece = |i: int| given(seq![none][i].len() > 0, seq![none][i]);
    lemma_gathered_empty(1, piece);
    assert(words(none).len() == 0);
}

/// A `nameserver` line names its address and no domain, and is one line.
proof fn lemma_nameserver_line(address: IpAddress)
    ensures
        unbroken("nameserver "@ + address.text(), exactly('\n')),
        line_nameservers("nameserver "@ + address.text()) == seq![address],
        line_domains("nameserver "@ + address.text()) == Seq::<Seq<char>>::empty(),
{
    reveal_strlit("nameserver ");
    reveal_strlit("nameserver");
    let head = "nameserver"@;
    let text = address.text();
    let line = "nameserver "@ + text;
    lemma_ip_text_is_a_word(address);
    assert("nameserver "@ =~= head.push(' '));
    assert(unbroken(head, space()));
    assert(unbroken(text, space()));
    lemma_pieces_unbroken(head, space());
    lemma_pieces_unbroken(text, space());
    lemma_pieces_after_separator(head, ' ', text, space());
    assert(pieces(line, space()) =~= seq![head, text]);
    lemma_nonempty_all(seq![head, text]);
    assert(words(line) == seq![head, text]);
    ip_text_reads_back(address);
    lemma_directives_differ();
    assert forall|i: int| 0 <= i < line.len() implies !exactly('\n')(#[trigger] line[i]) by {
        if i < 11 {
            assert(line[i] == "nameserver "@[i]);
        } else {
            assert(line[i] == text[i - 11]);
            assert(!is_space(text[i - 11]));
        }
    }
}

/// A `search` line names its domains and no nameserver, and is one line.
proof fn lemma_search_line(domains: Seq<Seq<char>>)
    requires
        domains.len() > 0,
        domains_are_words(domains),
    ensures
        unbroken("search "@ + join(domains, ' '), exactly('\n')),
        line_nameservers("search "@ + join(domains, ' ')) == Seq::<IpAddress>::empty(),
        line_domains("search "@ + join(domains, ' ')) == domains,
{
    reveal_strlit("search ");
    reveal_strlit("search");
    let head = "search"@;
    let text = join(domains, ' ');
    let line = "search "@ + text;
    assert("search "@ =~= head.push(' '));
    assert(unbroken(head, space()));
    lemma_pieces_unbroken(head, space());
    assert forall|i: int| 0 <= i < domains.len() implies unbroken(
        #[trigger] domains[i],
        space(),
    ) by {}
    lemma_pieces_join(domains, ' ', space());
    lemma_pieces_after_separator(head, ' ', text, space());
    let parts = seq![head] + domains;
    assert(pieces(line, space()) =~= parts);
    assert forall|i: int| 0 <= i < parts.len() implies (#[trigger] parts[i]).len() > 0 by {
        if i > 0 {
            assert(parts[i] == domains[i - 1]);
        }
    }
    lemma_nonempty_all(parts);
    assert(words(line) == parts);
    assert(parts.skip(1) =~= domains);
    lemma_directives_differ();
    lemma_join_unbroken(domains);
    assert forall|i: int| 0 <= i < line.len() implies !exactly('\n')(#[trigger] line[i]) by {
        if i < 7 {
            assert(line[i] == "search "@[i]);
        } else {
            assert(line[i] == text[i - 7]);
        }
    }
}

/// Words joined by blanks stay on one line.
proof fn lemma_join_unbroken(domains: Seq<Seq<char>>)
    requires
        domains_are_words(domains),
    ensures
        unbroken(join(domains, ' '), exactly('\n')),
    decreases domains.len(),
{
    let text = join(domains, ' ');
    if domains.len() == 1 {
        assert(unbroken(domains[0], space()));
        assert forall|i: int| 0 <= i < text.len() implies !exactly('\n')(#[trigger] text[i]) by {
            assert(!space()(domains[0][i]));
        }
    } else if domains.len() > 1 {
        let shorter = domains.drop_last();
        assert forall|i: int| 0 <= i < shorter.len() implies (#[trigger] shorter[i]).len() > 0
            && unbroken(shorter[i], space()) by {
            assert(shorter[i] == domains[i]);
        }
        lemma_join_unbroken(shorter);
        let head = join(shorter, ' ').push(' ');
        let last = domains.last();
        assert(unbroken(domains[domains.len() - 1], space()));
        assert forall|i: int| 0 <= i < text.len() implies !exactly('\n')(#[trigger] text[i]) by {
            if i < head.len() - 1 {
                assert(text[i] == join(shorter, ' ')[i]);
            } else if i == head.len() - 1 {
                assert(text[i] == ' ');
            } else {
                assert(text[i] == last[i - head.len()]);
                assert(!space()(last[i - head.len()]));
            }
        }
    }
}

/// Words after a directive are read as they stand: a line of one directive and a list of words
/// has just these words.
proof fn lemma_list_line(head: Seq<char>, list: Seq<Seq<char>>)
    requires
        head.len() > 0,
        unbroken(head, space()),
        list.len() > 0,
        domains_are_words(list),
    ensures
        words(head.push(' ') + join(list, ' ')) == seq![head] + list,
{
    let text = join(list, ' ');
    let line = head.push(' ') + text;
    lemma_pieces_unbroken(head, space());
    assert forall|i: int| 0 <= i < list.len() implies unbroken(#[trigger] list[i], space()) by {}
    lemma_pieces_join(list, ' ', space());
    lemma_pieces_after_separator(head, ' ', text, space());
    let parts = seq![head] + list;
    assert(pieces(line, space()) =~= parts);
    assert forall|i: int| 0 <= i < parts.len() implies (#[trigger] parts[i]).len() > 0 by {
        if i > 0 {
            assert(parts[i] == list[i - 1]);
        }
    }
    lemma_nonempty_all(parts);
}

/// A `domain` line followed by a list of words contributes exactly that list to the search
/// domains, as a `search` line does, and neither names a nameserver.
pub proof fn domain_lines_are_search_lists(domains: Seq<Seq<char>>)
    requires
        domains.len() > 0,
        domains_are_words(domains),
    ensures
        line_domains("domain "@ + join(domains, ' ')) == domains,
        line_domains("search "@ + join(domains, ' ')) == domains,
        line_nameservers("domain "@ + join(domains, ' ')) == Seq::<IpAddress>::empty(),
        line_nameservers("search "@ + join(domains, ' ')) == Seq::<IpAddress>::empty(),
{
    reveal_strlit("domain");
    reveal_strlit("domain ");
    reveal_strlit("search");
    reveal_strlit("search ");
    lemma_directives_differ();
    let text = join(domains, ' ');
    assert("domain "@ =~= "domain"@.push(' '));
    assert("search "@ =~= "search"@.push(' '));
    lemma_list_line("domain"@, domains);
    lemma_list_line("search"@, domains);
    assert((seq!["domain"@] + domains).skip(1) =~= domains);
    assert((seq!["search"@] + domains).skip(1) =~= domains);
}

/// What a line says is decided by its first word: after `search` and `domain` the other words
/// are search domains; after `nameserver` the second word is a nameserver if it is an address,
/// and what follows it is passed over; and any other line says nothing.
pub proof fn first_words_decide(line: Seq<char>)
    ensures
        ({
            let parts = words(line);
            &&& parts.len() > 0 && (parts[0] == "search"@ || parts[0] == "domain"@) ==> {
                &&& line_domains(line).len() == parts.len() - 1
                &&& forall|i: int|
                    1 <= i < parts.len() ==> line_domains(line)[i - 1] == #[trigger] parts[i]
                &&& line_nameservers(line).len() == 0
            }
            &&& parts.len() > 1 && parts[0] == "nameserver"@ ==> {
                &&& line_domains(line).len() == 0
                &&& ip_value(parts[1]) matches Some(address) ==> line_nameservers(line) == seq![
                    address,
                ]
                &&& ip_value(parts[1]) is None ==> line_nameservers(line).len() == 0
            }
            &&& parts.len() == 1 ==> line_domains(line).len() == 0 && line_nameservers(line).len()
                == 0
            &&& parts.len() == 0 || parts[0] != "search"@ && parts[0] != "domain"@ && parts[0]
                != "nameserver"@ ==> line_domains(line).len() == 0 && line_nameservers(line).len()
                == 0
        }),
{
    lemma_directives_differ();
}

/// A `nameserver` line names its address.
pub proof fn nameserver_lines_name_their_address(address: IpAddress)
    ensures
        line_nameservers("nameserver "@ + address.text()) == seq![address],
        line_domains("nameserver "@ + address.text()) == Seq::<Seq<char>>::empty(),
{
    lemma_nameserver_line(address);
}

/// A file reads line by line: what two parts on lines of their own say is what the first says,
/// followed by what the second says. Later directives add to earlier ones.
pub proof fn files_read_line_by_line(first: Seq<char>, second: Seq<char>)
    ensures
        resolver_in(first.push('\n') + second).nameservers == resolver_in(first).nameservers
            + resolver_in(second).nameservers,
        resolver_in(first.push('\n') + second).search_domains == resolver_in(first).search_domains
            + resolver_in(second).search_domains,
{
    lemma_pieces_after_separator(first, '\n', second, exactly('\n'));
    let left = lines(first);
    let right = lines(second);
    let all = left + right;
    assert(lines(first.push('\n') + second) == all);
    let n = left.len();
    let m = right.len();
    let servers = |i: int| line_nameservers(all[i]);
    let domains = |i: int| line_domains(all[i]);
    lemma_gathered_split(n, m, servers, |i: int| line_nameservers(right[i]));
    lemma_gathered_split(n, m, domains, |i: int| line_domains(right[i]));
    lemma_gathered_congruent(n, servers, |i: int| line_nameservers(left[i]));
    lemma_gathered_congruent(n, domains, |i: int| line_domains(left[i]));
}

/// A text of one line says what that line says.
pub proof fn single_lines_stand_for_themselves(line: Seq<char>)
    requires
        unbroken(line, exactly('\n')),
    ensures
        resolver_in(line).nameservers == line_nameservers(line),
        resolver_in(line).search_domains == line_domains(line),
{
    lemma_pieces_unbroken(line, exactly('\n'));
    let list = seq![line];
    assert(lines(line) == list);
    let servers = |i: int| line_nameservers(list[i]);
    let domains = |i: int| line_domains(list[i]);
    assert(gathered(1, servers) == gathered(0, servers) + servers(0));
    assert(gathered(1, domains) == gathered(0, domains) + domains(0));
    assert(gathered(1, servers) =~= line_nameservers(line));
    assert(gathered(1, domains) =~= line_domains(line));
}

/// What is written: one line for each nameserver, in order, then one line with all search
/// domains if there are any, and nothing else.
pub proof fn written_lines_state_the_configuration(resolver: Resolver, i: int)
    ensures
        resolver_lines(resolver).len() == resolver.nameservers.len() + (
        if resolver.search_domains.len() > 0 {
            1int
        } else {
            0
        }),
        0 <= i < resolver.nameservers.len() ==> resolver_lines(resolver)[i] == "nameserver "@
            + resolver.nameservers[i].text(),
        resolver.search_domains.len() > 0 ==> resolver_lines(resolver).last() == "search "@ + join(
            resolver.search_domains,
            ' ',
        ),
{
}

/// Every line that is written ends in a line feed, and the lines follow each other in order.
pub proof fn written_lines_end_in_a_line_feed(list: Seq<Seq<char>>, line: Seq<char>)
    ensures
        ended(Seq::empty()) == Seq::<char>::empty(),
        ended(list.push(line)) == ended(list) + line + seq!['\n'],
{
    let more = list.push(line);
    lemma_gathered_congruent(
        list.len(),
        |i: int| list[i].push('\n'),
        |i: int| more[i].push('\n'),
    );
    assert(ended(more) =~= ended(list) + line + seq!['\n']);
    assert(ended(Seq::empty()) =~= Seq::<char>::empty());
}

} // verus!
