use alewife::Publisher;

fn s(text: &str) -> String {
    text.to_string()
}

#[test]
fn simple_network() {
    let mut builder = Publisher::new();
    let subscriber = builder.add_subscriber(&["widgets".to_string()]);
    let mut publisher = builder.build();

    publisher.publish("widgets".to_string(), "sprocket".to_string());

    for (topic, content) in subscriber.fetch(&mut publisher) {
        println!("{}: {}", topic, content);
    }
}

#[test]
fn widgets_and_gears_scenario() {
    let mut builder = Publisher::new();
    let s1 = builder.add_subscriber(&[s("widgets")]);
    let s2 = builder.add_subscriber(&[s("widgets"), s("gears")]);
    let mut publisher = builder.build();

    publisher.publish(s("widgets"), s("sprocket"));
    assert_eq!(s1.fetch(&mut publisher), vec![(s("widgets"), s("sprocket"))]);
    assert_eq!(s2.fetch(&mut publisher), vec![(s("widgets"), s("sprocket"))]);

    publisher.publish(s("gears"), s("cog"));
    assert_eq!(s1.fetch(&mut publisher), Vec::new());
    assert_eq!(s2.fetch(&mut publisher), vec![(s("gears"), s("cog"))]);
}

#[test]
fn topic_isolation() {
    let mut builder = Publisher::new();
    let only_t1 = builder.add_subscriber(&[s("t1")]);
    let only_t2 = builder.add_subscriber(&[s("t2")]);
    let mut publisher = builder.build();

    publisher.publish(s("t2"), s("payload"));
    assert_eq!(only_t1.fetch(&mut publisher), Vec::new());
    assert_eq!(only_t2.fetch(&mut publisher), vec![(s("t2"), s("payload"))]);
}

#[test]
fn fan_out_completeness() {
    let mut builder = Publisher::new();
    let a = builder.add_subscriber(&[s("news")]);
    let b = builder.add_subscriber(&[s("news"), s("sport")]);
    let c = builder.add_subscriber(&[s("sport")]);
    let mut publisher = builder.build();

    publisher.publish(s("news"), s("flash"));
    assert_eq!(a.fetch(&mut publisher), vec![(s("news"), s("flash"))]);
    assert_eq!(b.fetch(&mut publisher), vec![(s("news"), s("flash"))]);
    assert_eq!(c.fetch(&mut publisher), Vec::new());
}

#[test]
fn order_preservation() {
    let mut builder = Publisher::new();
    let subscriber = builder.add_subscriber(&[s("t")]);
    let mut publisher = builder.build();

    publisher.publish(s("t"), s("a"));
    publisher.publish(s("t"), s("b"));
    assert_eq!(
        subscriber.fetch(&mut publisher),
        vec![(s("t"), s("a")), (s("t"), s("b"))]
    );
}

#[test]
fn arrival_order_across_topics() {
    let mut builder = Publisher::new();
    let subscriber = builder.add_subscriber(&[s("widgets"), s("gears")]);
    let mut publisher = builder.build();

    publisher.publish(s("widgets"), s("a"));
    publisher.publish(s("gears"), s("b"));
    publisher.publish(s("widgets"), s("c"));
    assert_eq!(
        subscriber.fetch(&mut publisher),
        vec![(s("widgets"), s("a")), (s("gears"), s("b")), (s("widgets"), s("c"))]
    );
}

#[test]
fn unknown_topic_is_a_no_op() {
    let mut builder = Publisher::new();
    let subscriber = builder.add_subscriber(&[s("known")]);
    let mut publisher = builder.build();

    publisher.publish(s("unknown"), s("lost"));
    assert_eq!(subscriber.fetch(&mut publisher), Vec::new());

    publisher.publish(s("known"), s("kept"));
    assert_eq!(subscriber.fetch(&mut publisher), vec![(s("known"), s("kept"))]);
}

#[test]
fn publish_with_no_subscribers_at_all() {
    let builder = Publisher::new();
    let mut publisher = builder.build();
    publisher.publish(s("anything"), s("nothing hears this"));
}

#[test]
fn drain_semantics() {
    let mut builder = Publisher::new();
    let subscriber = builder.add_subscriber(&[s("t")]);
    let mut publisher = builder.build();

    publisher.publish(s("t"), s("one"));
    publisher.publish(s("t"), s("two"));
    assert_eq!(
        subscriber.fetch(&mut publisher),
        vec![(s("t"), s("one")), (s("t"), s("two"))]
    );
    assert_eq!(subscriber.fetch(&mut publisher), Vec::new());
}

#[test]
fn duplicate_registration_delivers_twice() {
    let mut builder = Publisher::new();
    let subscriber = builder.add_subscriber(&[s("t"), s("t")]);
    let mut publisher = builder.build();

    publisher.publish(s("t"), s("echo"));
    assert_eq!(
        subscriber.fetch(&mut publisher),
        vec![(s("t"), s("echo")), (s("t"), s("echo"))]
    );
}

#[test]
fn empty_topic_list_receives_nothing() {
    let mut builder = Publisher::new();
    let deaf = builder.add_subscriber(&[]);
    let other = builder.add_subscriber(&[s("t")]);
    let mut publisher = builder.build();

    publisher.publish(s("t"), s("x"));
    assert_eq!(deaf.fetch(&mut publisher), Vec::new());
    assert_eq!(other.fetch(&mut publisher), vec![(s("t"), s("x"))]);
}

#[test]
fn independent_networks_share_nothing() {
    let mut builder_one = Publisher::new();
    let sub_one = builder_one.add_subscriber(&[s("t")]);
    let mut publisher_one = builder_one.build();

    let mut builder_two = Publisher::new();
    let sub_two = builder_two.add_subscriber(&[s("t")]);
    let mut publisher_two = builder_two.build();

    publisher_one.publish(s("t"), s("only network one"));
    assert_eq!(sub_two.fetch(&mut publisher_two), Vec::new());
    assert_eq!(
        sub_one.fetch(&mut publisher_one),
        vec![(s("t"), s("only network one"))]
    );
}
