use std::{
    collections::{BTreeSet, VecDeque},
    sync::Arc,
};

use microdata::{
    domain::{ItemScope, Name, Property, ValueType},
    parse_html,
};

#[test]
fn test_example1() {
    let expected = vec![
        ItemScope {
            itemtype: vec![],
            itemid: None,
            items: vec![Property {
                name: Name::String("name".to_string()),
                value: ValueType::String("Elizabeth".to_string()),
            }]
            .into(),
        },
        ItemScope {
            itemid: None,
            itemtype: vec![],
            items: vec![Property {
                name: Name::String("name".to_string()),
                value: ValueType::String("Daniel".to_string()),
            }]
            .into(),
        },
    ]
    .into_iter()
    .collect::<VecDeque<_>>();
    let html = r#"
    <div itemscope>
        <p>My name is <span itemprop="name">Elizabeth</span>.</p>
    </div>
    <div itemscope>
        <p>My name is <span itemprop="name">Daniel</span>.</p>
    </div>
    "#;
    let res = parse_html("", html).unwrap();
    assert_eq!(res, expected,);
    let html = r#"
    <div itemscope>
        <p>My <em>name</em> is <span itemprop="name">E<strong>liz</strong>abeth</span>.</p>
    </div>
    <section>
        <div itemscope>
             <aside>
                <p>My name is <span itemprop="name"><a href="/?user=daniel">Daniel</a></span>.</p>
             </aside>
        </div>
    </section>
    "#;
    let res = parse_html("", html).unwrap();
    assert_eq!(res, expected,);
}
#[test]
fn test_example2() {
    let html = r#"
        <div itemscope>
            <p>My name is <span itemprop="name">Neil</span>.</p>
            <p>My band is called <span itemprop="band">Four Parts Water</span>.</p>
            <p>I am <span itemprop="nationality">British</span>.</p>
        </div>        
    "#;
    let res = parse_html("", html).unwrap();
    assert_eq!(
        res,
        VecDeque::from([ItemScope {
            itemid: None,
            itemtype: vec![],
            items: VecDeque::from([
                Property {
                    name: Name::String("name".to_string()),
                    value: ValueType::String("Neil".into())
                },
                Property {
                    name: Name::String("band".to_string()),
                    value: ValueType::String("Four Parts Water".into())
                },
                Property {
                    name: Name::String("nationality".to_string()),
                    value: ValueType::String("British".into())
                },
            ])
        }])
    );
}

#[test]
fn test_example3() {
    let html = r#"
        <div itemscope>
        <img itemprop="image" src="google-logo.png" alt="Google">
        </div>      
    "#;
    let res = parse_html("http://bittich.be/", html).unwrap();
    assert_eq!(
        res,
        VecDeque::from([ItemScope {
            itemid: None,
            itemtype: vec![],
            items: VecDeque::from([Property {
                name: Name::Url("http://bittich.be/image".to_string()),
                value: ValueType::Url("http://bittich.be/google-logo.png".into())
            }])
        }])
    );
}

#[test]
fn test_example4() {
    let html = r#"
       <h1 itemscope>
            <data itemprop="product-id" value="9678AOU879">The Instigator 2000</data>
       </h1>   
    "#;
    let res = parse_html("http://bittich.be/", html).unwrap();
    assert_eq!(
        res,
        VecDeque::from([ItemScope {
            itemid: None,
            itemtype: vec![],
            items: VecDeque::from([Property {
                name: Name::Url("http://bittich.be/product-id".to_string()),
                value: ValueType::String("9678AOU879".into())
            }])
        }])
    );
}

#[test]
fn test_example5() {
    let html = r#"
        <div itemscope itemtype="http://schema.org/Product">
            <span itemprop="name">Panasonic White 60L Refrigerator</span>
            <img src="panasonic-fridge-60l-white.jpg" alt="">
            <div itemprop="aggregateRating"
                itemscope itemtype="http://schema.org/AggregateRating">
                <meter itemprop="ratingValue" min=0 value=3.5 max=5>Rated 3.5/5</meter>
                (based on <span itemprop="reviewCount">11</span> customer reviews)
            </div>
        </div> 
    "#;
    let res = parse_html("http://bittich.be/", html).unwrap();
    assert_eq!(
        res,
        VecDeque::from([ItemScope {
            itemid: None,
            itemtype: vec!["http://schema.org/Product".into()],
            items: VecDeque::from([
                Property {
                    name: Name::Url("http://bittich.be/name".to_string()),
                    value: ValueType::String("Panasonic White 60L Refrigerator".into())
                },
                Property {
                    name: Name::Url("http://bittich.be/aggregateRating".to_string()),
                    value: ValueType::ScopeRef(Arc::new(ItemScope {
                        itemtype: vec!["http://schema.org/AggregateRating".into()],
                        itemid: None,
                        items: vec![
                            Property {
                                name: Name::Url("http://bittich.be/ratingValue".to_string()),
                                value: ValueType::Meter("3.5".into())
                            },
                            Property {
                                name: Name::Url("http://bittich.be/reviewCount".to_string()),
                                value: ValueType::String("11".into())
                            },
                        ]
                        .into()
                    }))
                },
            ])
        }])
    );
}
#[test]
fn test_example6() {
    let html = r#"
        <div itemscope>
        I was born on <time itemprop="birthday" datetime="2009-05-10">May 10th 2009</time>.
        </div>  
    "#;
    let res = parse_html("http://bittich.be", html).unwrap();
    assert_eq!(
        res,
        VecDeque::from([ItemScope {
            itemid: None,
            itemtype: vec![],
            items: VecDeque::from([Property {
                name: Name::Url("http://bittich.be/birthday".to_string()),
                value: ValueType::Time("2009-05-10".into())
            }])
        }])
    );
}
#[test]
fn test_example7() {
    let html = r#"
        <div itemscope>
        <p>Name: <span itemprop="name">Amanda</span></p>
        <p>Band: <span itemprop="band" itemscope> <span itemprop="name">Jazz Band</span> (<span itemprop="size">12</span> players)</span></p>
        </div>
    "#;
    let res = parse_html("http://bittich.be/", html).unwrap();
    assert_eq!(
        res,
        VecDeque::from([ItemScope {
            itemid: None,
            itemtype: vec![],
            items: VecDeque::from([
                Property {
                    name: Name::Url("http://bittich.be/name".to_string()),
                    value: ValueType::String("Amanda".into())
                },
                Property {
                    name: Name::Url("http://bittich.be/band".to_string()),
                    value: ValueType::ScopeRef(Arc::new(ItemScope {
                        itemtype: vec![],
                        itemid: None,
                        items: vec![
                            Property {
                                name: Name::Url("http://bittich.be/name".to_string()),
                                value: ValueType::String("Jazz Band".into())
                            },
                            Property {
                                name: Name::Url("http://bittich.be/size".to_string()),
                                value: ValueType::String("12".into())
                            },
                        ]
                        .into()
                    }))
                },
            ])
        }])
    );
}

#[test]
fn test_example8() {
    let html = r#"
    <div itemscope id="amanda" itemref="a b"></div>
    <p id="a">Name: <span itemprop="name">Amanda</span></p>
    <div id="b" itemprop="band" itemscope itemref="c"></div>
    <div id="c">
    <p>Band: <span itemprop="name">Jazz Band</span></p>
    <p>Size: <span itemprop="size">12</span> players</p>
    </div>
    "#;
    let res = parse_html("", html).unwrap();
    assert_eq!(
        res,
        VecDeque::from([ItemScope {
            itemid: None,
            itemtype: vec![],
            items: VecDeque::from([
                Property {
                    name: Name::String("name".to_string()),
                    value: ValueType::String("Amanda".into())
                },
                Property {
                    name: Name::String("band".to_string()),
                    value: ValueType::ScopeRef(Arc::new(ItemScope {
                        itemtype: vec![],
                        itemid: None,
                        items: vec![
                            Property {
                                name: Name::String("name".to_string()),
                                value: ValueType::String("Jazz Band".into())
                            },
                            Property {
                                name: Name::String("size".to_string()),
                                value: ValueType::String("12".into())
                            },
                        ]
                        .into()
                    }))
                },
            ])
        }])
    );
}

#[test]
fn test_example9() {
    let html = r#"
        <div itemscope>
        <p>Flavors in my favorite ice cream:</p>
        <ul>
        <li itemprop="flavor">Lemon sorbet</li>
        <li itemprop="flavor">Apricot sorbet</li>
        </ul>
        </div>
    "#;
    let res = parse_html("http://bittich.be/", html).unwrap();
    assert_eq!(
        res,
        VecDeque::from([ItemScope {
            itemid: None,
            itemtype: vec![],
            items: VecDeque::from([Property {
                name: Name::Url("http://bittich.be/flavor".to_string()),
                value: ValueType::Array(
                    [
                        ValueType::String("Lemon sorbet".into()),
                        ValueType::String("Apricot sorbet".into())
                    ]
                    .into()
                )
            }])
        }])
    );
}

#[test]
fn test_example10() {
    let html = r#"
        <div itemscope>
        <span itemprop="favorite-color favorite-fruit">orange</span>
        </div>
    "#;
    let res = parse_html("http://bittich.be/", html).unwrap();
    assert_eq!(
        res,
        VecDeque::from([ItemScope {
            itemid: None,
            itemtype: vec![],
            items: VecDeque::from([
                Property {
                    name: Name::Url("http://bittich.be/favorite-color".to_string()),
                    value: ValueType::String("orange".into())
                },
                Property {
                    name: Name::Url("http://bittich.be/favorite-fruit".to_string()),
                    value: ValueType::String("orange".into())
                },
            ])
        }])
    );
}

#[test]
fn test_example11() {
    let html = r#"
        <figure>
        <img src="castle.jpeg">
        <figcaption><span itemscope><span itemprop="name">The Castle</span></span> (1986)</figcaption>
        </figure>        "#;
    let res = parse_html("http://bittich.be/", html).unwrap();
    assert_eq!(
        res,
        VecDeque::from([ItemScope {
            itemid: None,
            itemtype: vec![],
            items: VecDeque::from([Property {
                name: Name::Url("http://bittich.be/name".to_string()),
                value: ValueType::String("The Castle".into())
            },])
        }])
    );
    let html = r#"
        <span itemscope><meta itemprop="name" content="The Castle"></span>
        <figure>
        <img src="castle.jpeg">
        <figcaption>The Castle (1986)</figcaption>
        </figure>      
        "#;
    let res2 = parse_html("http://bittich.be/", html).unwrap();
    assert_eq!(res, res2);
}
#[test]
fn test_example12() {
    let html = r#"
    <div itemscope id="amanda" itemref="a b"></div>
    <p id="a">Name: <span itemprop="name">Amanda</span></p>
    <div id="b" itemprop="band" itemscope itemref="c"></div>
    <div id="c">
    <p>Band: <span itemprop="name">Jazz Band</span></p>
    <p>Band: <span itemprop="name" itemscope itemref="amanda">Jazz Band</span></p>
    <p>Size: <span itemprop="size">12</span> players</p>
    </div>
    "#;
    let res = parse_html("http://bittich.be/", html);
    assert_eq!(
        res.err().map(|e| e.message()),
        Some(format!(
            "cycle detected! {:?}",
            BTreeSet::from([Some("amanda"), Some("b"), Some("c")])
        ))
    );

    assert_eq!(
        parse_html(
            "http://bittich.be",
            r#"
    <div itemscope itemtype="http://schema.org/Person" id="person1" itemref="person1">
     <span itemprop="name">Alice</span>
    </div>
    "#
        )
        .err()
        .map(|s| s.message()),
        Some(format!(
            "cycle detected! {:?}",
            BTreeSet::from([Some("person1")])
        ))
    );

    assert_eq!(
        parse_html(
            "http://bittich.be",
            r#"
    <div itemscope itemtype="http://schema.org/Person" id="person1" itemref="person2">
    <span itemprop="name">Bob</span>
    </div>
    <div itemscope itemtype="http://schema.org/Person" id="person2" itemref="person1">
    <span itemprop="name">Carol</span>
    </div>
    "#
        )
        .err()
        .map(|s| s.message()),
        Some(format!(
            "cycle detected! {:?}",
            BTreeSet::from([Some("person1"), Some("person2")])
        ))
    );
    assert_eq!(
        parse_html(
            "http://bittich.be",
            r#"
            <div itemscope itemtype="http://schema.org/Person" id="a" itemref="b">
            <span itemprop="name">Dave</span>
            </div>

            <div itemscope itemtype="http://schema.org/Person" id="b" itemref="c">
            <span itemprop="name">Eve</span>
            </div>

            <div itemscope itemtype="http://schema.org/Person" id="c" itemref="a">
            <span itemprop="name">Frank</span>
            </div>        
            "#
        )
        .err()
        .map(|s| s.message()),
        Some(format!(
            "cycle detected! {:?}",
            BTreeSet::from([Some("a"), Some("b"), Some("c")])
        ))
    );
    assert_eq!(
        parse_html(
            "http://bittich.be",
            r#"
            <div itemscope itemtype="http://schema.org/Organization" id="org" itemref="team leader">
            <span itemprop="name">TechCorp</span>
            </div>

            <div itemscope itemtype="http://schema.org/Person" id="leader" itemref="org team">
            <span itemprop="name">Grace</span>
            </div>

            <div itemscope itemtype="http://schema.org/Person" id="team" itemref="leader">
            <span itemprop="name">Heidi</span>
            </div>     
            "#
        )
        .err()
        .map(|s| s.message()),
        Some(format!(
            "cycle detected! {:?}",
            BTreeSet::from([Some("leader"),Some("team")])
        ))
    );
    assert_eq!(
        parse_html(
            "http://bittich.be",
            r#"
                <div itemscope itemtype="http://schema.org/Event" id="event" itemref="venue">
                <span itemprop="name">Conference 2025</span>
                </div>

                <div itemscope itemtype="http://schema.org/Place" id="venue" itemref="organizer">
                <span itemprop="name">City Hall</span>
                </div>

                <div itemscope itemtype="http://schema.org/Organization" id="organizer" itemref="event">
                <span itemprop="name">TechGroup</span>
                </div>  
            "#
        )
        .err()
        .map(|s| s.message()),
        Some(format!(
            "cycle detected! {:?}",
            BTreeSet::from([Some("event"),Some("organizer"), Some("venue")])
        ))
    );
}

#[test]
fn test_example13() {
    let html = r#"
      <dl itemscope
        itemtype="https://vocab.example.net/book"
        itemid="urn:isbn:0-330-34032-8">
    <dt>Title
    <dd itemprop="title">The Reality Dysfunction
    <dt>Author
    <dd itemprop="author">Peter F. Hamilton
    <dt>Publication date
    <dd><time itemprop="pubdate" datetime="1996-01-26">26 January 1996</time>
    </dl>
    "#;
    let res = parse_html("http://bittich.be", html).unwrap();
    assert_eq!(
        res,
        VecDeque::from([ItemScope {
            itemid: Some("urn:isbn:0-330-34032-8".into()),
            itemtype: vec!["https://vocab.example.net/book".into()],
            items: VecDeque::from([
                Property {
                    name: Name::Url("http://bittich.be/title".to_string()),
                    value: ValueType::String("The Reality Dysfunction".into())
                },
                Property {
                    name: Name::Url("http://bittich.be/author".to_string()),
                    value: ValueType::String("Peter F. Hamilton".into())
                },
                Property {
                    name: Name::Url("http://bittich.be/pubdate".to_string()),
                    value: ValueType::Time("1996-01-26".into())
                },
            ])
        }])
    );
}
#[test]
fn test_example14() {
    let html = r#"
    <div itemscope>
        <p itemprop="a">1</p>
        <p itemprop="a">2</p>
        <p itemprop=":b">test</p>
    </div>
    "#;
    let res = parse_html("", html);
    assert_eq!(
        res.err().map(|s| s.message()),
        Some("itemprop :b is not a valid property".to_string())
    );
}

#[test]
fn test_example15() {
    let html = r#"
            <section id="jack" itemscope itemtype="http://microformats.org/profile/hcard">
            <h1 itemprop="fn">
            <span itemprop="n" itemscope>
            <span itemprop="given-name">Jack</span>
            <span itemprop="family-name">Bauer</span>
            </span>
            </h1>
            <img itemprop="photo" alt="" src="jack-bauer.jpg">
            <p itemprop="org" itemscope>
            <span itemprop="organization-name">Counter-Terrorist Unit</span>
            (<span itemprop="organization-unit">Los Angeles Division</span>)
            </p>
            <p>
            <span itemprop="adr" itemscope>
            <span itemprop="street-address">10201 W. Pico Blvd.</span><br>
            <span itemprop="locality">Los Angeles</span>,
            <span itemprop="region">CA</span>
            <span itemprop="postal-code">90064</span><br>
            <span itemprop="country-name">United States</span><br>
            </span>
            <span itemprop="geo">34.052339;-118.410623</span>
            </p>
            <h2>Assorted Contact Methods</h2>
            <ul>
            <li itemprop="tel" itemscope>
            <span itemprop="value">+1 (310) 597 3781</span> <span itemprop="type">work</span>
            <meta itemprop="type" content="voice">
            </li>
            <li><a itemprop="url" href="https://en.wikipedia.org/wiki/Jack_Bauer">I'm on Wikipedia</a>
            so you can leave a message on my user talk page.</li>
            <li><a itemprop="url" href="http://www.jackbauerfacts.com/">Jack Bauer Facts</a></li>
            <li itemprop="email"><a href="mailto:j.bauer@la.ctu.gov.invalid">j.bauer@la.ctu.gov.invalid</a></li>
            <li itemprop="tel" itemscope>
            <span itemprop="value">+1 (310) 555 3781</span> <span>
            <meta itemprop="type" content="cell">mobile phone</span>
            </li>
            </ul>
            <ins datetime="2008-07-20 21:00:00+01:00">
            <meta itemprop="rev" content="2008-07-20 21:00:00+01:00">
            <p itemprop="tel" itemscope><strong>Update!</strong>
            My new <span itemprop="type">home</span> phone number is
            <span itemprop="value">01632 960 123</span>.</p>
            </ins>
            </section>
            <address itemscope itemtype="http://microformats.org/profile/hcard">
                <strong itemprop="fn"><span itemprop="n" itemscope><span itemprop="given-name">Alfred</span>
                <span itemprop="family-name">Person</span></span></strong> <br>
                <span itemprop="adr" itemscope>
                <span itemprop="street-address">1600 Amphitheatre Parkway</span> <br>
                <span itemprop="street-address">Building 43, Second Floor</span> <br>
                <span itemprop="locality">Mountain View</span>,
                <span itemprop="region">CA</span> <span itemprop="postal-code">94043</span>
                </span>
                </address>
                <span itemscope itemtype="http://microformats.org/profile/hcard"
                ><span itemprop=fn><span itemprop="n" itemscope><span itemprop="given-name"
                >George</span> <span itemprop="family-name">Washington</span></span
                ></span></span>
    "#;
    let res = parse_html("", html).unwrap();
    println!("{:?}", res);
}
