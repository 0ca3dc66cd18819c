use gdeditor::monitors_panel::{Monitor, MonitorSample, MonitorsPanel};

fn sample(fps: f32, memory: f32, draw_calls: f32, physics: f32) -> MonitorSample<f32> {
    MonitorSample {
        fps,
        memory,
        draw_calls,
        physics,
    }
}

/// Acceptance (pat-sx8y8): during play the Monitors panel plots the selected
/// metrics over time, and selecting a monitor updates the graph.
#[test]
fn bottom_monitors_plot_metrics() {
    let mut panel = MonitorsPanel::new();

    // All four monitors are available, in order.
    assert_eq!(
        MonitorsPanel::<f32>::monitors(),
        [
            Monitor::Fps,
            Monitor::Memory,
            Monitor::DrawCalls,
            Monitor::Physics,
        ]
    );
    // FPS is selected by default; nothing plotted before play.
    assert_eq!(panel.selected(), Some(Monitor::Fps));
    assert!(panel.graph_points().is_empty());

    // Sampling does nothing until a play session starts.
    assert!(!panel.record(sample(60.0, 100.0, 10.0, 2.0)));
    assert_eq!(panel.sample_count(), 0);

    // During play, each step plots its metrics over time.
    panel.start_play();
    assert!(panel.is_playing());
    assert!(panel.record(sample(60.0, 100.0, 10.0, 2.0)));
    assert!(panel.record(sample(58.0, 110.0, 12.0, 2.5)));
    assert!(panel.record(sample(59.0, 115.0, 11.0, 2.2)));
    assert_eq!(panel.sample_count(), 3);

    // The graph plots the selected (FPS) monitor's time series.
    assert_eq!(panel.graph_points(), &[60.0, 58.0, 59.0]);

    // Selecting a different monitor updates the graph to that metric.
    panel.select(Monitor::Memory);
    assert_eq!(panel.selected(), Some(Monitor::Memory));
    assert_eq!(panel.graph_points(), &[100.0, 110.0, 115.0]);

    panel.select(Monitor::DrawCalls);
    assert_eq!(panel.graph_points(), &[10.0, 12.0, 11.0]);

    panel.select(Monitor::Physics);
    assert_eq!(panel.graph_points(), &[2.0, 2.5, 2.2]);

    // Every monitor accumulated the same number of points over time.
    for m in MonitorsPanel::<f32>::monitors() {
        assert_eq!(panel.series(m).len(), 3, "monitor {m:?} plotted over time");
    }

    // Stopping play keeps the history but stops new sampling.
    panel.stop_play();
    assert!(!panel.is_playing());
    assert!(!panel.record(sample(50.0, 120.0, 9.0, 3.0)));
    assert_eq!(panel.sample_count(), 3, "no new samples after play ends");
    // The previously plotted history is still graphable.
    assert_eq!(panel.graph_points(), &[2.0, 2.5, 2.2]);
}
