use flats_bot::flats::crawl::{CrawlEvent, CrawlStep, FetchOutcome};
use flats_bot::flats::listing::FetchError;
use flats_bot::flats::{CategoryStructure, City, Flat, FlatCriteria, FlatsParser};
use flats_bot::telegram::{
    bullets, cancel, conclude, handle, help_message, parse_price_range, receive_deal_type,
    receive_district_name, receive_price_range, recieve_city_name, start, unhandled_message,
    Command, Inbound, Outcome, Rejection, State,
};

const HELP: &str = "These commands are supported:\n\n/start \u{2014} Start the dialogue.\n/help \u{2014} Get help.\n/cancel \u{2014} Cancel the dialogue.";
const PRICE_PROMPT: &str = "Please enter the price range using the following format: 'min_price-max_price'";

fn catalog() -> Vec<City> {
    vec![
        City {
            name: "Riga".to_string(),
            href: "/riga/".to_string(),
            districts: vec![
                CategoryStructure {
                    name: "Teika".to_string(),
                    href: "/riga/teika/".to_string(),
                    deal_types: vec!["Rent".to_string()],
                },
                CategoryStructure {
                    name: "Centre".to_string(),
                    href: "/riga/centre/".to_string(),
                    deal_types: vec!["Sell".to_string(), "Rent".to_string()],
                },
            ],
        },
        City { name: "Jurmala".to_string(), href: "/jurmala/".to_string(), districts: Vec::new() },
    ]
}

fn text(t: &str) -> Inbound {
    Inbound::Text(t.to_string())
}

fn command(command: Command, t: &str) -> Inbound {
    Inbound::Command { command, text: t.to_string() }
}

fn awaiting_district() -> State {
    State::ReceiveDistrictName { city_name: "Riga".to_string() }
}

fn awaiting_deal_type() -> State {
    State::ReceiveDealType { city_name: "Riga".to_string(), district_name: "Centre".to_string() }
}

fn awaiting_price() -> State {
    State::ReceivePriceRange {
        city_name: "Riga".to_string(),
        district_name: "Centre".to_string(),
        deal_type: "Sell".to_string(),
    }
}

fn stays(state: State, reply: &str) -> Outcome {
    Outcome { state, reply: reply.to_string(), search: None, rejected: None }
}

fn rejects(state: State, reply: &str, why: Rejection) -> Outcome {
    Outcome { state, reply: reply.to_string(), search: None, rejected: Some(why) }
}

#[test]
fn default_state_is_start() {
    assert_eq!(State::default(), State::Start);
}

#[test]
fn funnel_leads_from_start_to_done() {
    let cities = vec![City {
        name: "Riga".to_string(),
        href: "/riga/".to_string(),
        districts: vec![CategoryStructure {
            name: "Centre".to_string(),
            href: "/riga/centre/".to_string(),
            deal_types: vec!["Sell".to_string(), "Rent".to_string()],
        }],
    }];
    let out = handle(State::default(), &command(Command::Start, "/start"), &cities);
    assert_eq!(out, Outcome {
        state: State::ReceiveCityName,
        reply: "Let's start! Please select a city: \n\n\u{2022} Riga".to_string(),
        search: None,
        rejected: None,
    });
    let out = handle(out.state, &text("Riga"), &cities);
    assert_eq!(out, Outcome {
        state: State::ReceiveDistrictName { city_name: "Riga".to_string() },
        reply: "Please select a district: \n\n\u{2022} Centre".to_string(),
        search: None,
        rejected: None,
    });
    let out = handle(out.state, &text("Centre"), &cities);
    assert_eq!(out, Outcome {
        state: State::ReceiveDealType { city_name: "Riga".to_string(), district_name: "Centre".to_string() },
        reply: "Please select a deal type: \n\n\u{2022} Sell\n\u{2022} Rent".to_string(),
        search: None,
        rejected: None,
    });
    let out = handle(out.state, &text("Sell"), &cities);
    assert_eq!(out, Outcome {
        state: State::ReceivePriceRange {
            city_name: "Riga".to_string(),
            district_name: "Centre".to_string(),
            deal_type: "Sell".to_string(),
        },
        reply: PRICE_PROMPT.to_string(),
        search: None,
        rejected: None,
    });
    let out = handle(out.state, &text("100-500"), &cities);
    assert_eq!(out.state, State::Done);
    assert_eq!(out.rejected, None);
    assert_eq!(out.reply, "Looking for flats that match your choice.");
    assert_eq!(out.search, Some(FlatCriteria {
        href: "/riga/centre/".to_string(),
        city: "Riga".to_string(),
        district: "Centre".to_string(),
        deal_type: "Sell".to_string(),
        price_from: 100,
        price_to: 500,
    }));
}

#[test]
fn an_unknown_city_leaves_the_state() {
    let out = handle(State::ReceiveCityName, &text("Nonexistent"), &catalog());
    assert_eq!(
        out,
        rejects(
            State::ReceiveCityName,
            "City 'Nonexistent' name is invalid. Please try again!",
            Rejection::Invalid
        )
    );
    let out = recieve_city_name(Some("riga"), &catalog());
    assert_eq!(
        out,
        rejects(State::ReceiveCityName, "City 'riga' name is invalid. Please try again!", Rejection::Invalid)
    );
    let out = recieve_city_name(Some("Riga "), &catalog());
    assert_eq!(out.state, State::ReceiveCityName);
}

#[test]
fn a_normalized_city_name_is_stored_and_matched() {
    let root = r#"<a class="a_category" href="/riga/">Riga and Pieriga</a>"#;
    let mut parser = FlatsParser::new("https://site.example");
    assert_eq!(
        parser.parse_global_data(CrawlEvent::Begin),
        CrawlStep::Fetch("https://site.example/lv/real-estate/flats/".to_string())
    );
    assert_eq!(
        parser.parse_global_data(CrawlEvent::Fetched(FetchOutcome::Page { status: 200, body: root.to_string() })),
        CrawlStep::Fetch("https://site.example/riga/".to_string())
    );
    assert_eq!(
        parser.parse_global_data(CrawlEvent::Fetched(FetchOutcome::Page { status: 200, body: String::new() })),
        CrawlStep::Finished
    );
    assert_eq!(parser.cities.len(), 1);
    assert_eq!(parser.cities[0].name, "Riga");
    let out = handle(State::ReceiveCityName, &text("Riga"), parser.catalog());
    assert_eq!(out.state, State::ReceiveDistrictName { city_name: "Riga".to_string() });
    let out = handle(State::ReceiveCityName, &text("Riga and Pieriga"), parser.catalog());
    assert_eq!(out.state, State::ReceiveCityName);
}

#[test]
fn start_lists_the_cities_sorted() {
    let out = start(&catalog());
    assert_eq!(out, Outcome {
        state: State::ReceiveCityName,
        reply: "Let's start! Please select a city: \n\n\u{2022} Jurmala\n\u{2022} Riga".to_string(),
        search: None,
        rejected: None,
    });
    assert_eq!(start(&Vec::new()).reply, "Let's start! Please select a city: \n\n");
}

#[test]
fn a_city_leads_to_its_districts_sorted() {
    let out = recieve_city_name(Some("Riga"), &catalog());
    assert_eq!(out, Outcome {
        state: awaiting_district(),
        reply: "Please select a district: \n\n\u{2022} Centre\n\u{2022} Teika".to_string(),
        search: None,
        rejected: None,
    });
    let out = recieve_city_name(Some("Jurmala"), &catalog());
    assert_eq!(out.reply, "Please select a district: \n\n");
}

#[test]
fn a_district_leads_to_its_deal_types() {
    let out = receive_district_name("Riga".to_string(), Some("Teika"), &catalog());
    assert_eq!(out, Outcome {
        state: State::ReceiveDealType { city_name: "Riga".to_string(), district_name: "Teika".to_string() },
        reply: "Please select a deal type: \n\n\u{2022} Rent".to_string(),
        search: None,
        rejected: None,
    });
}

#[test]
fn missing_names_leave_the_state() {
    assert_eq!(
        receive_district_name("Riga".to_string(), Some("Nowhere"), &catalog()),
        rejects(awaiting_district(), "District not found", Rejection::Invalid)
    );
    assert_eq!(
        receive_district_name("Gone".to_string(), Some("Centre"), &catalog()),
        rejects(
            State::ReceiveDistrictName { city_name: "Gone".to_string() },
            "City not found",
            Rejection::Stale
        )
    );
    assert_eq!(
        receive_deal_type(awaiting_deal_type(), Some("Swap"), &catalog()),
        rejects(awaiting_deal_type(), "Deal type not found", Rejection::Invalid)
    );
    assert_eq!(
        receive_deal_type(awaiting_deal_type(), Some("Sell"), &Vec::new()),
        rejects(awaiting_deal_type(), "City not found", Rejection::Stale)
    );
    let stale = State::ReceiveDealType { city_name: "Jurmala".to_string(), district_name: "Centre".to_string() };
    assert_eq!(
        receive_deal_type(stale.clone(), Some("Sell"), &catalog()),
        rejects(stale, "District not found", Rejection::Stale)
    );
    assert_eq!(
        receive_deal_type(State::ReceiveCityName, Some("Sell"), &catalog()),
        rejects(State::ReceiveCityName, "Unexpected state.", Rejection::Stale)
    );
}

#[test]
fn a_message_without_text_leaves_the_state() {
    let plain = "Message should be a plain text";
    for state in [State::ReceiveCityName, awaiting_district(), awaiting_deal_type(), awaiting_price()] {
        assert_eq!(
            handle(state.clone(), &Inbound::Other, &catalog()),
            rejects(state, plain, Rejection::NotText)
        );
    }
    assert_eq!(
        receive_deal_type(State::Start, None, &catalog()),
        rejects(State::Start, plain, Rejection::NotText)
    );
}

#[test]
fn price_ranges_are_two_numbers_and_a_dash() {
    assert_eq!(parse_price_range("100-500"), Some((100, 500)));
    assert_eq!(parse_price_range(" 100 - 500 "), Some((100, 500)));
    assert_eq!(parse_price_range("500-100"), Some((500, 100)));
    assert_eq!(parse_price_range("0-4294967295"), Some((0, 4294967295)));
    assert_eq!(parse_price_range("0-4294967296"), None);
    assert_eq!(parse_price_range("100"), None);
    assert_eq!(parse_price_range("100-"), None);
    assert_eq!(parse_price_range("-500"), None);
    assert_eq!(parse_price_range("100-200-300"), None);
    assert_eq!(parse_price_range("1 0-20"), None);
    assert_eq!(parse_price_range("a-b"), None);
    assert_eq!(parse_price_range(""), None);
}

#[test]
fn a_price_range_must_be_well_formed_and_in_order() {
    assert_eq!(
        handle(awaiting_price(), &text("cheap"), &catalog()),
        rejects(awaiting_price(), PRICE_PROMPT, Rejection::Malformed)
    );
    assert_eq!(
        handle(awaiting_price(), &text("500-100"), &catalog()),
        rejects(
            awaiting_price(),
            "The minimum price must not be above the maximum price. Please enter the price range using the following format: 'min_price-max_price'",
            Rejection::Invalid
        )
    );
    let out = handle(awaiting_price(), &text("300-300"), &catalog());
    assert_eq!(out.state, State::Done);
    assert_eq!(out.search.map(|c| (c.price_from, c.price_to, c.href)), Some((300, 300, "/riga/centre/".to_string())));
    assert_eq!(
        receive_price_range("Riga".to_string(), "Centre".to_string(), "Swap".to_string(), Some("1-2"), &catalog()),
        rejects(
            State::ReceivePriceRange {
                city_name: "Riga".to_string(),
                district_name: "Centre".to_string(),
                deal_type: "Swap".to_string(),
            },
            "Deal type not found",
            Rejection::Stale
        )
    );
    assert_eq!(
        handle(awaiting_price(), &text("1-2"), &Vec::new()),
        rejects(awaiting_price(), "City not found", Rejection::Stale)
    );
}

#[test]
fn cancel_returns_to_start_from_anywhere() {
    let expected = stays(State::Start, "The dialogue is cancelled. Send /start to begin again.");
    for state in [State::Start, State::ReceiveCityName, awaiting_district(), awaiting_deal_type(), awaiting_price(), State::Done] {
        assert_eq!(handle(state, &command(Command::Cancel, "/cancel"), &catalog()), expected);
    }
    assert_eq!(cancel(), expected);
}

#[test]
fn at_rest_only_commands_are_taken() {
    let unhandled = format!("Unhandled message. Available commands:\n{}", HELP);
    for state in [State::Start, State::Done] {
        assert_eq!(handle(state.clone(), &command(Command::Help, "/help"), &catalog()), stays(state.clone(), HELP));
        assert_eq!(handle(state.clone(), &text("Riga"), &catalog()), stays(state.clone(), &unhandled));
        assert_eq!(
            handle(state.clone(), &Inbound::Other, &catalog()),
            rejects(state.clone(), "Message should be a plain text", Rejection::NotText)
        );
        assert_eq!(handle(state.clone(), &command(Command::Start, "/start"), &catalog()).state, State::ReceiveCityName);
    }
    assert_eq!(help_message(State::Start), stays(State::Start, HELP));
    assert_eq!(unhandled_message(State::Done), stays(State::Done, &unhandled));
}

#[test]
fn while_an_answer_is_awaited_other_commands_are_answers() {
    assert_eq!(
        handle(State::ReceiveCityName, &command(Command::Help, "/help"), &catalog()),
        rejects(State::ReceiveCityName, "City '/help' name is invalid. Please try again!", Rejection::Invalid)
    );
    assert_eq!(
        handle(awaiting_district(), &command(Command::Start, "/start"), &catalog()),
        rejects(awaiting_district(), "District not found", Rejection::Invalid)
    );
}

#[test]
fn bullets_put_one_name_to_a_line() {
    assert_eq!(bullets(&Vec::new()), "");
    assert_eq!(bullets(&vec!["a".to_string()]), "\u{2022} a");
    assert_eq!(bullets(&vec!["a".to_string(), "".to_string(), "c".to_string()]), "\u{2022} a\n\u{2022} \n\u{2022} c");
}

#[test]
fn the_end_of_a_search_returns_to_start() {
    assert_eq!(
        conclude(&Err(FetchError::NotFound)),
        stays(State::Start, "The listings could not be fetched. Please try again.")
    );
    assert_eq!(conclude(&Ok(Vec::new())), stays(State::Start, "No flats were found."));
    let flat = Flat {
        street_name: "Brivibas 1".to_string(),
        price: "55,000".to_string(),
        url: "/msg/1.html".to_string(),
        image_url: String::new(),
        rooms: 2,
        square_meters: 45,
        floor: 3,
        series: "LT".to_string(),
    };
    let mut other = flat.clone();
    other.street_name = "Lacplesa 7".to_string();
    assert_eq!(
        conclude(&Ok(vec![flat, other])),
        stays(
            State::Start,
            "Flats found:\n\n\u{2022} Brivibas 1, 55,000, /msg/1.html\n\u{2022} Lacplesa 7, 55,000, /msg/1.html"
        )
    );
}

#[test]
fn turns_are_taken_in_order() {
    let cities = catalog();
    let run = |messages: &[&str]| {
        let mut state = State::ReceiveCityName;
        let mut replies = Vec::new();
        for message in messages {
            let out = handle(state, &text(message), &cities);
            state = out.state;
            replies.push(out.reply);
        }
        (state, replies)
    };
    let (state, replies) = run(&["Riga", "Centre"]);
    assert_eq!(state, awaiting_deal_type());
    assert_eq!(replies.len(), 2);
    let (state, replies) = run(&["Centre", "Riga"]);
    assert_eq!(state, awaiting_district());
    assert_eq!(replies[0], "City 'Centre' name is invalid. Please try again!");
    let (first, _) = run(&["Riga"]);
    let then = handle(first, &text("Centre"), &cities);
    assert_eq!(then.state, run(&["Riga", "Centre"]).0);
}
